//! Règle du jeu : comparaison d'un essai au mot secret.

use vstd::prelude::*;

verus! {

/// Statut d'une lettre dans un essai.
#[derive(Debug, Clone, Copy, PartialEq, Eq, Structural)]
pub enum Statut {
    /// Bonne lettre, bonne position.
    Correct,
    /// Bonne lettre, mauvaise position.
    Present,
    /// Lettre absente (ou déjà toute « consommée » ailleurs).
    Absent,
}

/// Nombre de positions `j < k` où le secret porte la lettre `c` alors que
/// l'essai n'y est pas bien placé : les occurrences de `c` encore « disponibles ».
pub open spec fn restantes_avant(essai: Seq<char>, secret: Seq<char>, c: char, k: int) -> nat
    decreases k,
{
    if k <= 0 {
        0
    } else {
        restantes_avant(essai, secret, c, k - 1) + if secret[k - 1] == c && essai[k - 1]
            != secret[k - 1] {
            1nat
        } else {
            0nat
        }
    }
}

/// Nombre de positions `j < k` où l'essai porte la lettre `c` sans être bien placé.
pub open spec fn mal_placees_avant(essai: Seq<char>, secret: Seq<char>, c: char, k: int) -> nat
    decreases k,
{
    if k <= 0 {
        0
    } else {
        mal_placees_avant(essai, secret, c, k - 1) + if essai[k - 1] == c && essai[k - 1]
            != secret[k - 1] {
            1nat
        } else {
            0nat
        }
    }
}

/// Statut de la position `i` : bien placée d'abord ; sinon présente tant que les
/// occurrences mal placées de la même lettre qui la précèdent dans l'essai n'ont pas
/// épuisé les occurrences restantes du secret ; sinon absente.
pub open spec fn statut_attendu(essai: Seq<char>, secret: Seq<char>, i: int) -> Statut {
    if essai[i] == secret[i] {
        Statut::Correct
    } else if mal_placees_avant(essai, secret, essai[i], i) < restantes_avant(
        essai,
        secret,
        essai[i],
        secret.len() as int,
    ) {
        Statut::Present
    } else {
        Statut::Absent
    }
}

/// Le résultat complet de la comparaison, une entrée par lettre de l'essai.
pub open spec fn statuts(essai: Seq<char>, secret: Seq<char>) -> Seq<Statut> {
    Seq::new(essai.len(), |i: int| statut_attendu(essai, secret, i))
}

spec fn cles_uniques(l: Seq<(char, usize)>) -> bool {
    forall|a: int, b: int| 0 <= a < b < l.len() ==> l[a].0 != l[b].0
}

/// Position de la clé `c` dans la liste d'associations, si elle y figure.
fn chercher(l: &Vec<(char, usize)>, c: char) -> (r: Option<usize>)
    ensures
        match r {
            Some(k) => k < l@.len() && l@[k as int].0 == c,
            None => forall|k: int| 0 <= k < l@.len() ==> l@[k].0 != c,
        },
{
    let mut k: usize = 0;
    while k < l.len()
        invariant
            k <= l@.len(),
            forall|j: int| 0 <= j < k ==> l@[j].0 != c,
        decreases l@.len() - k,
    {
        if l[k].0 == c {
            return Some(k);
        }
        k = k + 1;
    }
    None
}

/// Compare `essai` à `secret`, lettre à lettre, façon Wordle/SUTOM.
///
/// Les deux tranches doivent avoir la même longueur (garanti par l'appelant).
/// Les lettres bien placées sont résolues en premier, puis les lettres
/// présentes sont attribuées dans la limite des occurrences restantes du secret,
/// ce qui gère correctement les lettres en double.
pub fn comparer(essai: &[char], secret: &[char]) -> (resultat: Vec<Statut>)
    requires
        essai@.len() == secret@.len(),
    ensures
        resultat@ == statuts(essai@, secret@),
{
    let n = essai.len();
    let ghost e = essai@;
    let ghost s = secret@;
    let mut resultat: Vec<Statut> = Vec::new();
    let mut restantes: Vec<(char, usize)> = Vec::new();

    // 1re passe : lettres bien placées ; on compte les autres lettres du secret.
    let mut i: usize = 0;
    while i < n
        invariant
            n == e.len(),
            e.len() == s.len(),
            e == essai@,
            s == secret@,
            i <= n,
            resultat@.len() == i,
            forall|j: int|
                0 <= j < i ==> #[trigger] resultat@[j] == if e[j] == s[j] {
                    Statut::Correct
                } else {
                    Statut::Absent
                },
            cles_uniques(restantes@),
            forall|k: int|
                0 <= k < restantes@.len() ==> restantes@[k].1 == restantes_avant(
                    e,
                    s,
                    restantes@[k].0,
                    i as int,
                ) && restantes@[k].1 > 0,
            forall|c: char|
                restantes_avant(e, s, c, i as int) > 0 ==> exists|k: int|
                    0 <= k < restantes@.len() && restantes@[k].0 == c,
        decreases n - i,
    {
        let a = essai[i];
        let b = secret[i];
        let ghost avant = restantes@;
        let ghost mut pos: int = 0;
        if a == b {
            resultat.push(Statut::Correct);
        } else {
            resultat.push(Statut::Absent);
            match chercher(&restantes, b) {
                Some(k) => {
                    let v = restantes[k].1;
                    assert(v == restantes_avant(e, s, b, i as int));
                    assert(v <= i) by {
                        lemme_restantes_borne(e, s, b, i as int);
                    }
                    restantes.set(k, (b, v + 1));
                    proof {
                        pos = k as int;
                    }
                },
                None => {
                    assert(restantes_avant(e, s, b, i as int) == 0);
                    restantes.push((b, 1));
                    proof {
                        pos = avant.len() as int;
                    }
                },
            }
            assert(0 <= pos < restantes@.len() && restantes@[pos].0 == b);
        }
        assert(restantes@.len() >= avant.len());
        assert(forall|k: int| 0 <= k < avant.len() ==> restantes@[k].0 == avant[k].0);
        assert forall|c: char|
            #[trigger] restantes_avant(e, s, c, (i + 1) as int) > 0 implies exists|k: int|
                0 <= k < restantes@.len() && restantes@[k].0 == c by {
            if c == b && a != b {
                assert(restantes@[pos].0 == c);
            } else {
                assert(restantes_avant(e, s, c, i as int) > 0);
                let k = choose|k: int| 0 <= k < avant.len() && avant[k].0 == c;
                assert(restantes@[k].0 == c);
            }
        }
        i = i + 1;
    }

    // 2e passe : lettres présentes mais mal placées.
    let mut i: usize = 0;
    while i < n
        invariant
            n == e.len(),
            e.len() == s.len(),
            e == essai@,
            s == secret@,
            i <= n,
            resultat@.len() == n,
            forall|j: int| 0 <= j < i ==> #[trigger] resultat@[j] == statut_attendu(e, s, j),
            forall|j: int|
                i <= j < n ==> #[trigger] resultat@[j] == if e[j] == s[j] {
                    Statut::Correct
                } else {
                    Statut::Absent
                },
            cles_uniques(restantes@),
            forall|k: int|
                #![trigger restantes@[k]]
                0 <= k < restantes@.len() ==> {
                    let c = restantes@[k].0;
                    let r = restantes_avant(e, s, c, n as int);
                    let m = mal_placees_avant(e, s, c, i as int);
                    &&& r > 0
                    &&& restantes@[k].1 == if m < r {
                        r - m
                    } else {
                        0
                    }
                },
            forall|c: char|
                restantes_avant(e, s, c, n as int) > 0 ==> exists|k: int|
                    0 <= k < restantes@.len() && restantes@[k].0 == c,
        decreases n - i,
    {
        let ghost avant = restantes@;
        if resultat[i] != Statut::Correct {
            let a = essai[i];
            match chercher(&restantes, a) {
                Some(k) => {
                    let v = restantes[k].1;
                    if v > 0 {
                        resultat.set(i, Statut::Present);
                        restantes.set(k, (a, v - 1));
                    }
                },
                None => {
                    assert(restantes_avant(e, s, a, n as int) == 0);
                },
            }
        }
        assert(resultat@[i as int] == statut_attendu(e, s, i as int));
        assert(restantes@.len() == avant.len());
        assert(forall|k: int| 0 <= k < avant.len() ==> restantes@[k].0 == avant[k].0);
        assert forall|c: char|
            #[trigger] restantes_avant(e, s, c, n as int) > 0 implies exists|k: int|
                0 <= k < restantes@.len() && restantes@[k].0 == c by {
            let k = choose|k: int| 0 <= k < avant.len() && avant[k].0 == c;
            assert(restantes@[k].0 == c);
        }
        i = i + 1;
    }
    assert(resultat@ =~= statuts(e, s));
    resultat
}

proof fn lemme_restantes_borne(e: Seq<char>, s: Seq<char>, c: char, k: int)
    requires
        0 <= k,
    ensures
        restantes_avant(e, s, c, k) <= k,
    decreases k,
{
    if k > 0 {
        lemme_restantes_borne(e, s, c, k - 1);
    }
}

/// Nombre de positions `i < k` où `mot` porte la lettre `c`.
pub open spec fn occurrences(mot: Seq<char>, c: char, k: int) -> nat
    decreases k,
{
    if k <= 0 {
        0
    } else {
        occurrences(mot, c, k - 1) + if mot[k - 1] == c {
            1nat
        } else {
            0nat
        }
    }
}

/// Nombre de positions `i < k` où l'essai porte la lettre `c` et où le résultat
/// la colore (bien placée ou présente).
pub open spec fn colorees(resultat: Seq<Statut>, essai: Seq<char>, c: char, k: int) -> nat
    decreases k,
{
    if k <= 0 {
        0
    } else {
        colorees(resultat, essai, c, k - 1) + if essai[k - 1] == c && resultat[k - 1]
            != Statut::Absent {
            1nat
        } else {
            0nat
        }
    }
}

/// Nombre de positions `i < k` où essai et secret portent tous deux la lettre `c`.
spec fn bien_placees_avant(essai: Seq<char>, secret: Seq<char>, c: char, k: int) -> nat
    decreases k,
{
    if k <= 0 {
        0
    } else {
        bien_placees_avant(essai, secret, c, k - 1) + if essai[k - 1] == c && secret[k - 1]
            == c {
            1nat
        } else {
            0nat
        }
    }
}

spec fn min(a: nat, b: nat) -> nat {
    if a <= b {
        a
    } else {
        b
    }
}

proof fn lemme_decomposition(essai: Seq<char>, secret: Seq<char>, c: char, k: int)
    requires
        essai.len() == secret.len(),
        0 <= k <= essai.len(),
    ensures
        occurrences(essai, c, k) == bien_placees_avant(essai, secret, c, k) + mal_placees_avant(
            essai,
            secret,
            c,
            k,
        ),
        occurrences(secret, c, k) == bien_placees_avant(essai, secret, c, k) + restantes_avant(
            essai,
            secret,
            c,
            k,
        ),
        colorees(statuts(essai, secret), essai, c, k) == bien_placees_avant(essai, secret, c, k)
            + min(
            mal_placees_avant(essai, secret, c, k),
            restantes_avant(essai, secret, c, essai.len() as int),
        ),
    decreases k,
{
    if k > 0 {
        lemme_decomposition(essai, secret, c, k - 1);
        let i = k - 1;
        assert(statuts(essai, secret)[i] == statut_attendu(essai, secret, i));
    }
}

/// Une lettre tapée plusieurs fois n'est colorée (bien placée ou présente) qu'autant
/// de fois qu'elle figure dans le secret : pour toute lettre `c`, le nombre de
/// positions de l'essai portant `c` et colorées vaut le plus petit des deux nombres
/// d'occurrences de `c`, dans l'essai et dans le secret.
pub proof fn loi_lettres_colorees(essai: Seq<char>, secret: Seq<char>, c: char)
    requires
        essai.len() == secret.len(),
    ensures
        colorees(statuts(essai, secret), essai, c, essai.len() as int) == if occurrences(
            essai,
            c,
            essai.len() as int,
        ) <= occurrences(secret, c, secret.len() as int) {
            occurrences(essai, c, essai.len() as int)
        } else {
            occurrences(secret, c, secret.len() as int)
        },
{
    lemme_decomposition(essai, secret, c, essai.len() as int);
}

/// Une position est bien placée si et seulement si l'essai et le secret y portent la
/// même lettre ; en particulier, proposer le secret lui-même colore tout en `Correct`.
pub proof fn loi_bien_placees(essai: Seq<char>, secret: Seq<char>)
    requires
        essai.len() == secret.len(),
    ensures
        forall|i: int|
            0 <= i < essai.len() ==> (#[trigger] statuts(essai, secret)[i] == Statut::Correct
                <==> essai[i] == secret[i]),
        (forall|i: int| 0 <= i < essai.len() ==> statuts(essai, secret)[i] == Statut::Correct)
            <==> essai == secret,
{
    if forall|i: int| 0 <= i < essai.len() ==> statuts(essai, secret)[i] == Statut::Correct {
        assert forall|i: int| 0 <= i < essai.len() implies essai[i] == secret[i] by {
            assert(statuts(essai, secret)[i] == Statut::Correct);
        }
        assert(essai =~= secret);
    }
}

} // verus!
