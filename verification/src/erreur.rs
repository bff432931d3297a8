//! Erreurs de l'API : code HTTP et message de chacune.

use vstd::prelude::*;

use crate::texte::{caracteres, chaine_de};

verus! {

/// Les erreurs que l'API renvoie au front.
#[derive(Debug, PartialEq, Eq, Structural)]
pub enum ApiError {
    /// Aucune partie ne correspond à l'identifiant fourni.
    PartieIntrouvable,
    /// La partie est déjà gagnée ou perdue.
    PartieTerminee,
    /// Le mot proposé n'est pas dans le dictionnaire.
    MotInconnu,
    /// Le mot proposé n'a pas la bonne longueur.
    MauvaiseLongueur { attendue: usize },
}

/// Le chiffre décimal `d` (0 à 9).
pub open spec fn chiffre(d: nat) -> char {
    seq!['0', '1', '2', '3', '4', '5', '6', '7', '8', '9'][d as int]
}

/// L'écriture décimale de `n`, sans zéro de tête.
pub open spec fn decimal(n: nat) -> Seq<char>
    decreases n,
{
    if n < 10 {
        seq![chiffre(n)]
    } else {
        decimal(n / 10).push(chiffre(n % 10))
    }
}

fn chiffre_exec(d: usize) -> (c: char)
    requires
        d < 10,
    ensures
        c == chiffre(d as nat),
{
    match d {
        0 => '0',
        1 => '1',
        2 => '2',
        3 => '3',
        4 => '4',
        5 => '5',
        6 => '6',
        7 => '7',
        8 => '8',
        _ => '9',
    }
}

/// Les chiffres décimaux de `n`.
fn decimal_exec(n: usize) -> (v: Vec<char>)
    ensures
        v@ == decimal(n as nat),
    decreases n,
{
    if n < 10 {
        let mut v = Vec::new();
        v.push(chiffre_exec(n));
        assert(v@ =~= seq![chiffre(n as nat)]);
        v
    } else {
        let mut v = decimal_exec(n / 10);
        v.push(chiffre_exec(n % 10));
        v
    }
}

impl ApiError {
    /// Le code HTTP de l'erreur : 404 partie inconnue, 409 partie terminée,
    /// 422 mot inconnu ou de mauvaise longueur.
    pub open spec fn code(self) -> u16 {
        match self {
            ApiError::PartieIntrouvable => 404,
            ApiError::PartieTerminee => 409,
            ApiError::MotInconnu => 422,
            ApiError::MauvaiseLongueur { .. } => 422,
        }
    }

    /// Le message renvoyé au front sous la clé `erreur`.
    pub open spec fn texte(self) -> Seq<char> {
        match self {
            ApiError::PartieIntrouvable => "partie introuvable"@,
            ApiError::PartieTerminee => "la partie est terminée"@,
            ApiError::MotInconnu => "mot absent du dictionnaire"@,
            ApiError::MauvaiseLongueur { attendue } => "le mot doit faire "@ + decimal(
                attendue as nat,
            ) + " lettres"@,
        }
    }

    /// Code HTTP de la réponse d'erreur.
    pub fn code_http(&self) -> (c: u16)
        ensures
            c == self.code(),
    {
        match self {
            ApiError::PartieIntrouvable => 404,
            ApiError::PartieTerminee => 409,
            ApiError::MotInconnu => 422,
            ApiError::MauvaiseLongueur { .. } => 422,
        }
    }

    /// Message de l'erreur, tel que le front l'affiche.
    pub fn message(&self) -> (m: String)
        ensures
            m@ == self.texte(),
    {
        match self {
            ApiError::PartieIntrouvable => "partie introuvable".to_owned(),
            ApiError::PartieTerminee => "la partie est terminée".to_owned(),
            ApiError::MotInconnu => "mot absent du dictionnaire".to_owned(),
            ApiError::MauvaiseLongueur { attendue } => {
                let mut v = caracteres("le mot doit faire ");
                let mut d = decimal_exec(*attendue);
                v.append(&mut d);
                let mut fin = caracteres(" lettres");
                v.append(&mut fin);
                chaine_de(v.as_slice())
            },
        }
    }
}

} // verus!
