//! Configuration du serveur, calculée à partir des valeurs lues dans
//! l'environnement (voir `.envrc` à la racine du dépôt).

use vstd::prelude::*;

use crate::erreur::{chiffre, decimal};
use crate::texte::caracteres;

verus! {

/// Port d'écoute par défaut.
pub const PORT_DEFAUT: u16 = 3000;

/// Paramètres d'exécution du serveur.
pub struct Config {
    /// Port d'écoute HTTP.
    pub port: u16,
    /// Origine autorisée pour le CORS (l'URL du front).
    pub origine_front: String,
}

/// `c` est un chiffre décimal ASCII.
pub open spec fn est_chiffre(c: char) -> bool {
    '0' <= c && c <= '9'
}

/// La valeur décimale d'une suite de chiffres (0 pour la suite vide).
pub open spec fn valeur_chiffres(d: Seq<char>) -> nat
    decreases d.len(),
{
    if d.len() == 0 {
        0
    } else {
        valeur_chiffres(d.drop_last()) * 10 + ((d.last() as int) - ('0' as int)) as nat
    }
}

/// `s` privée de son `+` de tête, s'il y en a un.
pub open spec fn sans_signe(s: Seq<char>) -> Seq<char> {
    if s.len() > 0 && s[0] == '+' {
        s.drop_first()
    } else {
        s
    }
}

/// Ce que donne `str::parse::<u16>` : un `+` de tête facultatif, puis au moins un
/// chiffre décimal et rien d'autre, pour une valeur d'au plus 65535.
pub open spec fn analyse_u16(s: Seq<char>) -> Option<u16> {
    let d = sans_signe(s);
    if d.len() > 0 && (forall|i: int| 0 <= i < d.len() ==> est_chiffre(#[trigger] d[i]))
        && valeur_chiffres(d) <= 65535 {
        Some(valeur_chiffres(d) as u16)
    } else {
        None
    }
}

proof fn lemme_chiffre(k: nat)
    requires
        k < 10,
    ensures
        (chiffre(k) as int) == 48 + k,
        '0' <= chiffre(k) <= '9',
{
    let c = seq!['0', '1', '2', '3', '4', '5', '6', '7', '8', '9'];
    assert(chiffre(k) == c[k as int]);
    if k == 0 {
        assert(c[0] == '0');
    } else if k == 1 {
        assert(c[1] == '1');
    } else if k == 2 {
        assert(c[2] == '2');
    } else if k == 3 {
        assert(c[3] == '3');
    } else if k == 4 {
        assert(c[4] == '4');
    } else if k == 5 {
        assert(c[5] == '5');
    } else if k == 6 {
        assert(c[6] == '6');
    } else if k == 7 {
        assert(c[7] == '7');
    } else if k == 8 {
        assert(c[8] == '8');
    } else {
        assert(c[9] == '9');
    }
}

proof fn lemme_decimal(n: nat)
    ensures
        decimal(n).len() > 0,
        forall|i: int| 0 <= i < decimal(n).len() ==> '0' <= #[trigger] decimal(n)[i] <= '9',
        valeur_chiffres(decimal(n)) == n,
    decreases n,
{
    if n >= 10 {
        lemme_decimal(n / 10);
        lemme_chiffre(n % 10);
        let d = decimal(n);
        assert(d.drop_last() =~= decimal(n / 10));
        assert(d.last() == chiffre(n % 10));
        assert(('0' as int) == 48);
        assert(valeur_chiffres(d) == valeur_chiffres(decimal(n / 10)) * 10 + n % 10);
        assert(n == (n / 10) * 10 + n % 10);
        assert forall|i: int| 0 <= i < d.len() implies '0' <= #[trigger] d[i] <= '9' by {
            if i < d.len() - 1 {
                assert(d[i] == decimal(n / 10)[i]);
            }
        }
    } else {
        lemme_chiffre(n);
        let d = decimal(n);
        assert(d.drop_last() =~= Seq::<char>::empty());
        assert(valeur_chiffres(d.drop_last()) == 0);
        assert(d.last() == chiffre(n));
        assert(('0' as int) == 48);
        assert(valeur_chiffres(d) == n);
    }
}

/// Un port écrit en décimal (le nombre tel que l'écrit `decimal`, sans zéro de tête),
/// précédé ou non d'un `+`, se lit comme ce nombre : tout `u16` est lu tel quel.
pub proof fn loi_lecture_port(n: u16)
    ensures
        analyse_u16(decimal(n as nat)) == Some(n),
        analyse_u16(seq!['+'] + decimal(n as nat)) == Some(n),
{
    lemme_decimal(n as nat);
    let d = decimal(n as nat);
    assert(d[0] != '+');
    assert(sans_signe(d) == d);
    assert((seq!['+'] + d).drop_first() =~= d);
    assert(sans_signe(seq!['+'] + d) == d);
}

/// Une suite d'un à cinq chiffres ASCII `'0'..='9'` (après un `+` facultatif) se lit
/// comme sa valeur décimale si celle-ci tient dans un `u16`.
pub proof fn loi_chiffres_lus(s: Seq<char>)
    requires
        0 < s.len() <= 5,
        forall|i: int| 0 <= i < s.len() ==> '0' <= #[trigger] s[i] <= '9',
        valeur_chiffres(s) <= 65535,
    ensures
        analyse_u16(s) == Some(valeur_chiffres(s) as u16),
        analyse_u16(seq!['+'] + s) == Some(valeur_chiffres(s) as u16),
{
    assert(s[0] != '+');
    assert((seq!['+'] + s).drop_first() =~= s);
}

/// L'origine du front par défaut.
pub open spec fn origine_defaut() -> Seq<char> {
    "http://localhost:5173"@
}

/// Lit un numéro de port comme `str::parse::<u16>`.
pub fn analyser_port(s: &str) -> (r: Option<u16>)
    ensures
        r == analyse_u16(s@),
{
    let v = caracteres(s);
    let n = v.len();
    let debut: usize = if n > 0 && v[0] == '+' {
        1
    } else {
        0
    };
    let ghost d = v@.subrange(debut as int, n as int);
    assert(d =~= sans_signe(s@));
    if debut == n {
        return None;
    }
    let mut valeur: u32 = 0;
    let mut trop_grand = false;
    let mut i: usize = debut;
    while i < n
        invariant
            debut <= i <= n,
            n == v@.len(),
            d == v@.subrange(debut as int, n as int),
            d == sans_signe(s@),
            forall|k: int| debut <= k < i ==> est_chiffre(#[trigger] v@[k]),
            !trop_grand ==> valeur == valeur_chiffres(v@.subrange(debut as int, i as int))
                && valeur <= 65535,
            trop_grand ==> valeur_chiffres(v@.subrange(debut as int, i as int)) > 65535,
        decreases n - i,
    {
        let c = v[i];
        if !('0' <= c && c <= '9') {
            assert(!est_chiffre(d[i - debut]));
            return None;
        }
        let ghost prefixe = v@.subrange(debut as int, i + 1);
        assert(prefixe.drop_last() =~= v@.subrange(debut as int, i as int));
        assert(prefixe.last() == c);
        if !trop_grand {
            let nouvelle = valeur * 10 + ((c as u32) - ('0' as u32));
            if nouvelle > 65535 {
                trop_grand = true;
            } else {
                valeur = nouvelle;
            }
        }
        i = i + 1;
    }
    assert(v@.subrange(debut as int, n as int) == d);
    assert(forall|k: int| 0 <= k < d.len() ==> #[trigger] d[k] == v@[debut + k]);
    if trop_grand {
        None
    } else {
        Some(valeur as u16)
    }
}

impl Config {
    /// Construit la configuration à partir des valeurs lues dans l'environnement,
    /// en retombant sur des valeurs par défaut adaptées au développement local :
    /// `BACK_PORT` (défaut : `3000`, aussi quand la valeur n'est pas un port) et
    /// `FRONT_ORIGIN` (défaut : `http://localhost:5173`).
    pub fn depuis_valeurs(port: Option<&str>, origine_front: Option<String>) -> (c: Config)
        ensures
            c.port == match port {
                Some(p) => match analyse_u16(p@) {
                    Some(n) => n,
                    None => PORT_DEFAUT,
                },
                None => PORT_DEFAUT,
            },
            c.origine_front@ == match origine_front {
                Some(o) => o@,
                None => origine_defaut(),
            },
    {
        let port = match port {
            Some(p) => match analyser_port(p) {
                Some(n) => n,
                None => PORT_DEFAUT,
            },
            None => PORT_DEFAUT,
        };
        let origine_front = match origine_front {
            Some(o) => o,
            None => "http://localhost:5173".to_owned(),
        };
        Config { port, origine_front }
    }
}

} // verus!
