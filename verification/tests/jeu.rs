use motus::jeu::comparer;
use motus::jeu::Statut;
use motus::jeu::Statut::{Absent, Correct, Present};

fn compare(essai: &str, secret: &str) -> Vec<Statut> {
    comparer(
        &essai.chars().collect::<Vec<_>>(),
        &secret.chars().collect::<Vec<_>>(),
    )
}

#[test]
fn mot_exact() {
    assert_eq!(compare("maison", "maison"), vec![Correct; 6]);
}

#[test]
fn aucune_lettre_commune() {
    assert_eq!(compare("abcdef", "ghijkl"), vec![Absent; 6]);
}

#[test]
fn anagramme_tout_present() {
    assert_eq!(compare("niche", "chien"), vec![Present; 5]);
}

#[test]
fn lettre_en_double_dans_lessai_unique_dans_le_secret() {
    // "eleves" vs "cheval" : le seul 'e' du secret est bien placé (index 2),
    // donc tous les autres 'e' de l'essai sont absents ; le 'l' est présent.
    assert_eq!(
        compare("eleves", "cheval"),
        vec![Absent, Present, Correct, Correct, Absent, Absent]
    );
}

#[test]
fn priorite_aux_lettres_bien_placees() {
    // "llama" vs "koala" : un seul 'l' disponible (l'autre est déjà Correct
    // ailleurs), donc le 1er 'l' est présent et le 2e absent.
    assert_eq!(
        compare("llama", "koala"),
        vec![Present, Absent, Correct, Absent, Correct]
    );
}

fn colorees(essai: &str, resultat: &[Statut], c: char) -> usize {
    essai
        .chars()
        .zip(resultat)
        .filter(|(e, s)| *e == c && **s != Absent)
        .count()
}

#[test]
fn lettres_colorees_dans_la_limite_du_secret() {
    // "aabbaa" vs "abacad" : 'a' 4 fois dans l'essai, 3 dans le secret.
    let r = compare("aabbaa", "abacad");
    assert_eq!(colorees("aabbaa", &r, 'a'), 3);
    assert_eq!(colorees("aabbaa", &r, 'b'), 1);
    assert_eq!(r, vec![Correct, Present, Present, Absent, Correct, Absent]);
}

#[test]
fn lettre_absente_du_secret() {
    let r = compare("zzzzz", "maman");
    assert_eq!(r, vec![Absent; 5]);
}

#[test]
fn mots_vides() {
    assert_eq!(compare("", ""), Vec::<Statut>::new());
}

#[test]
fn present_avant_correct_de_la_meme_lettre() {
    // Le 'e' bien placé en fin d'essai prend la seule occurrence : le premier 'e' est absent.
    assert_eq!(compare("eabcde", "xxxxxe"), vec![Absent, Absent, Absent, Absent, Absent, Correct]);
    // Deux 'e' dans le secret : l'un bien placé, l'autre disponible pour le premier 'e'.
    assert_eq!(compare("eabcde", "xexxxe"), vec![Present, Absent, Absent, Absent, Absent, Correct]);
}
