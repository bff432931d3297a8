use motus::config::{analyser_port, Config};

#[test]
fn configuration_par_defaut() {
    let c = Config::depuis_valeurs(None, None);
    assert_eq!(c.port, 3000);
    assert_eq!(c.origine_front, "http://localhost:5173");
}

#[test]
fn configuration_lue() {
    let c = Config::depuis_valeurs(Some("8080"), Some("https://motus.example".to_string()));
    assert_eq!(c.port, 8080);
    assert_eq!(c.origine_front, "https://motus.example");
}

#[test]
fn port_invalide_retombe_sur_le_defaut() {
    assert_eq!(Config::depuis_valeurs(Some("abc"), None).port, 3000);
    assert_eq!(Config::depuis_valeurs(Some("70000"), None).port, 3000);
    assert_eq!(Config::depuis_valeurs(Some(""), None).port, 3000);
}

#[test]
fn lecture_du_port_comme_parse() {
    for s in ["0", "+80", "65535", "65536", "", "+", "-1", "-0", "0080", " 80", "8 0", "99999999999", "٣"] {
        assert_eq!(analyser_port(s), s.parse::<u16>().ok(), "pour {:?}", s);
    }
}
