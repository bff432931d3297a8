use motus::dictionnaire::{
    blanc, normaliser, preparer_essai, Dictionnaire, LONGUEUR_MAX, LONGUEUR_MIN,
};

#[test]
fn normalise_un_mot_simple() {
    assert_eq!(normaliser("\"maison\""), Some("maison".to_string()));
    assert_eq!(normaliser("  fenetre "), Some("fenetre".to_string()));
}

#[test]
fn garde_les_accents() {
    assert_eq!(normaliser("\"éléphant\""), Some("éléphant".to_string()));
}

#[test]
fn rejette_les_entrees_non_jouables() {
    assert_eq!(normaliser("\"1000e\""), None); // chiffres
    assert_eq!(normaliser("\"5 à 7\""), None); // espaces
    assert_eq!(normaliser("\"AAAAA\""), None); // acronyme
    assert_eq!(normaliser("\"Paris\""), None); // nom propre
    assert_eq!(normaliser("\"chat\""), None); // trop court
    assert_eq!(normaliser("\"anticonstitutionnel\""), None); // trop long
    assert_eq!(normaliser(""), None);
}

#[test]
fn normalise_blancs_et_guillemets_multiples() {
    assert_eq!(normaliser(" \t\"\"maison\"\" \r"), Some("maison".to_string()));
    assert_eq!(normaliser("\" maison \""), Some("maison".to_string()));
    assert_eq!(normaliser("\"\"\"\""), None);
    assert_eq!(normaliser("   "), None);
}

#[test]
fn normalise_bornes_de_longueur() {
    assert_eq!(normaliser("abcdef"), Some("abcdef".to_string()));
    assert_eq!(normaliser("abcdefghi"), Some("abcdefghi".to_string()));
    assert_eq!(normaliser("abcde"), None);
    assert_eq!(normaliser("abcdefghij"), None);
    // La longueur se compte en caractères, pas en octets.
    assert_eq!(normaliser("éééééé"), Some("éééééé".to_string()));
}

#[test]
fn charger_garde_les_mots_jouables_tries_sans_doublon() {
    let texte = "\"maison\"\n\"Paris\"\n\"chat\"\n\"fenetre\"\r\n\"maison\"\n\"abricot\"\n";
    let dico = Dictionnaire::charger(texte);
    assert_eq!(dico.len(), 3);
    assert!(!dico.est_vide());
    assert!(dico.contient("maison"));
    assert!(dico.contient("fenetre"));
    assert!(dico.contient("abricot"));
    assert!(!dico.contient("paris"));
    assert!(!dico.contient("chat"));
    assert!(!dico.contient("maiso"));
}

#[test]
fn dictionnaire_vide() {
    let dico = Dictionnaire::charger("");
    assert_eq!(dico.len(), 0);
    assert!(dico.est_vide());
    assert!(!dico.contient("maison"));
}

#[test]
fn le_mot_tire_est_dans_le_dictionnaire() {
    let dico = Dictionnaire::charger("maison\nfenetre\nabricot\nbalcon\n");
    for _ in 0..20 {
        let mot = dico.mot_aleatoire();
        assert!(dico.contient(mot));
        assert!((6..=9).contains(&mot.chars().count()));
    }
}

#[test]
fn prepare_l_essai_du_joueur() {
    assert_eq!(preparer_essai("  MAISON \n"), "maison");
    assert_eq!(preparer_essai("Éléphant"), "éléphant");
}

#[test]
fn le_dictionnaire_embarque_est_utilisable() {
    // La liste complète (`back/data/mots.csv`) est lue par le serveur au démarrage ;
    // on vérifie ici la même chose sur un extrait au même format.
    let extrait = "\"abaisser\"\n\"ABS\"\n\"Paris\"\n\"maison\"\n\"5 à 7\"\n\"éléphant\"\n";
    let dico = Dictionnaire::charger(extrait);
    assert!(!dico.est_vide());
    let mot = dico.mot_aleatoire();
    assert!(dico.contient(mot));
    assert!((LONGUEUR_MIN..=LONGUEUR_MAX).contains(&mot.chars().count()));
}

#[test]
fn blancs_comme_is_whitespace() {
    for u in 0..=0x10FFFFu32 {
        if let Some(c) = char::from_u32(u) {
            assert_eq!(blanc(c), c.is_whitespace(), "pour {:?}", c);
        }
    }
}

fn attendus(texte: &str) -> Vec<String> {
    let mut v: Vec<String> = texte.lines().filter_map(normaliser).collect();
    v.sort();
    v.dedup();
    v
}

#[test]
fn decoupage_en_lignes_comme_lines() {
    let textes = [
        "",
        "\n",
        "maison",
        "maison\n",
        "maison\r\nbalcon",
        "maison\r\nbalcon\r\n",
        "maison\rbalcon\n",
        "maison\n\nbalcon\n\n",
        "\r\nmaison\r",
        "abricot\r\r\nbalcon",
        "\"maison\"\n\"balcon\"\n\"maison\"",
    ];
    for texte in textes {
        let dico = Dictionnaire::charger(texte);
        let mots = attendus(texte);
        assert_eq!(dico.len(), mots.len(), "pour {:?}", texte);
        for (i, m) in mots.iter().enumerate() {
            assert_eq!(dico.mot(i), m.as_str(), "pour {:?}", texte);
            assert!(dico.contient(m));
        }
    }
}

#[test]
fn mots_dans_l_ordre_croissant() {
    let dico = Dictionnaire::charger("maison\nabricot\nzénith\nbalcon\nabricot\n");
    assert_eq!(dico.len(), 4);
    assert_eq!(dico.mot(0), "abricot");
    assert_eq!(dico.mot(1), "balcon");
    assert_eq!(dico.mot(2), "maison");
    assert_eq!(dico.mot(3), "zénith");
}

#[test]
fn textes_joints_reunissent_leurs_mots() {
    let a = "maison\nbalcon\r";
    let b = "abricot\nmaison";
    let joint = format!("{}\n{}", a, b);
    let dico = Dictionnaire::charger(&joint);
    let da = Dictionnaire::charger(a);
    let db = Dictionnaire::charger(b);
    assert_eq!(dico.len(), 3);
    for m in ["maison", "balcon", "abricot"] {
        assert!(dico.contient(m));
        assert!(da.contient(m) || db.contient(m));
    }
}
