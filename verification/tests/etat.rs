use motus::dictionnaire::Dictionnaire;
use motus::erreur::ApiError;
use motus::etat::{Partie, Parties, ESSAIS_MAX, TTL_PARTIE};
use motus::jeu::Statut::{Absent, Correct, Present};

fn lettres(s: &str) -> Vec<char> {
    s.chars().collect()
}

#[test]
fn partie_neuve() {
    let p = Partie::nouvelle("maison", 7);
    assert_eq!(p.longueur(), 6);
    assert_eq!(p.premiere_lettre(), 'm');
    assert_eq!(p.secret_texte(), "maison");
    assert_eq!(p.essais_restants, ESSAIS_MAX);
    assert!(!p.termine);
    assert!(!p.gagne);
    assert_eq!(p.creee_a, 7);
}

#[test]
fn jouer_le_secret_gagne() {
    let mut p = Partie::nouvelle("maison", 0);
    let r = p.jouer(&lettres("maisons")[..6]);
    assert_eq!(r, vec![Correct; 6]);
    assert!(p.gagne);
    assert!(p.termine);
    assert_eq!(p.essais_restants, ESSAIS_MAX - 1);
}

#[test]
fn six_essais_perdus_terminent_la_partie() {
    let mut p = Partie::nouvelle("maison", 0);
    for i in 0..6 {
        assert!(!p.termine);
        p.jouer(&lettres("abcdef"));
        assert_eq!(p.essais_restants, ESSAIS_MAX - 1 - i);
    }
    assert!(p.termine);
    assert!(!p.gagne);
    // Les essais ne descendent pas sous zéro.
    p.jouer(&lettres("abcdef"));
    assert_eq!(p.essais_restants, 0);
    assert!(p.termine);
}

fn dico() -> Dictionnaire {
    Dictionnaire::charger("maison\nmaisons\nfenetre\nabricot\nbalcon\n")
}

#[test]
fn parcours_d_une_partie_gagnee() {
    let dico = dico();
    let mut parties = Parties::new();
    let rep = parties.demarrer("maison", 42, 100);
    assert_eq!(rep.id_partie, 42);
    assert_eq!(rep.longueur, 6);
    assert_eq!(rep.premiere_lettre, 'm');
    assert_eq!(rep.essais_restants, 6);
    assert_eq!(parties.len(), 1);

    let r = parties.essai(&dico, 42, " BALCON ").unwrap();
    assert_eq!(r.resultat, vec![Absent, Correct, Absent, Absent, Correct, Correct]);
    assert_eq!(r.essais_restants, 5);
    assert!(!r.termine);
    assert!(!r.gagne);
    assert_eq!(r.mot_secret, None);

    let r = parties.essai(&dico, 42, "maison").unwrap();
    assert_eq!(r.resultat, vec![Correct; 6]);
    assert!(r.termine);
    assert!(r.gagne);
    assert_eq!(r.mot_secret, None);

    assert!(matches!(parties.essai(&dico, 42, "maison"), Err(ApiError::PartieTerminee)));
}

#[test]
fn le_secret_n_est_revele_qu_a_la_defaite() {
    let dico = dico();
    let mut parties = Parties::new();
    parties.demarrer("maison", 1, 0);
    for _ in 0..5 {
        let r = parties.essai(&dico, 1, "balcon").unwrap();
        assert_eq!(r.mot_secret, None);
    }
    let r = parties.essai(&dico, 1, "balcon").unwrap();
    assert!(r.termine);
    assert!(!r.gagne);
    assert_eq!(r.essais_restants, 0);
    assert_eq!(r.mot_secret, Some("maison".to_string()));
}

#[test]
fn refus_des_essais_invalides() {
    let dico = dico();
    let mut parties = Parties::new();
    parties.demarrer("maison", 1, 0);
    assert_eq!(parties.essai(&dico, 1, "zzzzzz").err(), Some(ApiError::MotInconnu));
    assert_eq!(parties.essai(&dico, 2, "maison").err(), Some(ApiError::PartieIntrouvable));
    assert_eq!(
        parties.essai(&dico, 1, "fenetre").err(),
        Some(ApiError::MauvaiseLongueur { attendue: 6 })
    );
    // Un mot inconnu est refusé avant même de chercher la partie.
    assert_eq!(parties.essai(&dico, 2, "zzzzzz").err(), Some(ApiError::MotInconnu));
    // Les refus ne consomment pas d'essai.
    let r = parties.essai(&dico, 1, "balcon").unwrap();
    assert_eq!(r.essais_restants, 5);
}

#[test]
fn nouvelle_partie_tire_un_mot_du_dictionnaire() {
    let dico = dico();
    let mut parties = Parties::new();
    let rep = parties.nouvelle_partie(&dico, 0);
    assert!(rep.longueur >= 6 && rep.longueur <= 7);
    assert_eq!(rep.essais_restants, 6);
    assert_eq!(parties.len(), 1);
    let r = parties.essai(&dico, rep.id_partie, "zzzzzz");
    assert_eq!(r.err(), Some(ApiError::MotInconnu));
}

#[test]
fn purge_des_parties_terminees_ou_expirees() {
    let dico = dico();
    let mut parties = Parties::new();
    parties.demarrer("maison", 1, 0);
    parties.demarrer("balcon", 2, 1000);
    parties.demarrer("fenetre", 3, 3000);
    parties.essai(&dico, 3, "fenetre").unwrap(); // gagnée, donc terminée
    assert_eq!(parties.purger(TTL_PARTIE), 2);
    assert_eq!(parties.len(), 1);
    assert_eq!(parties.essai(&dico, 1, "maison").err(), Some(ApiError::PartieIntrouvable));
    assert!(parties.essai(&dico, 2, "maison").is_ok());
    assert_eq!(parties.purger(TTL_PARTIE), 0);
    assert_eq!(parties.purger(1000 + TTL_PARTIE), 1);
    assert_eq!(parties.len(), 0);
}

#[test]
fn purge_horloge_en_arriere() {
    let mut parties = Parties::new();
    parties.demarrer("maison", 1, 5000);
    assert_eq!(parties.purger(10), 0);
    assert_eq!(parties.len(), 1);
}
