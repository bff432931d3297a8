//! Chargement et filtrage de la liste de mots jouables.

use rand::Rng;
use vstd::prelude::*;

use crate::texte::{
    avant, caracteres, chaine_de, comparer_mots, croissante, lemme_ordre_total,
    lemme_ordre_transitif, Ordre,
};

verus! {

/// Longueurs de mots acceptées (bornes incluses), à la manière de SUTOM.
pub const LONGUEUR_MIN: usize = 6;

pub const LONGUEUR_MAX: usize = 9;

/// Les blancs : les caractères de propriété Unicode `White_Space` (ceux que
/// reconnaît `char::is_whitespace`).
pub open spec fn est_blanc(c: char) -> bool {
    ||| '\u{9}' <= c && c <= '\u{D}'
    ||| c == ' '
    ||| c == '\u{85}'
    ||| c == '\u{A0}'
    ||| c == '\u{1680}'
    ||| '\u{2000}' <= c && c <= '\u{200A}'
    ||| c == '\u{2028}'
    ||| c == '\u{2029}'
    ||| c == '\u{202F}'
    ||| c == '\u{205F}'
    ||| c == '\u{3000}'
}

/// Ce que renvoie `char::is_uppercase` : la propriété Unicode `Uppercase`.
pub uninterp spec fn est_majuscule(c: char) -> bool;

/// Ce que renvoie `char::is_alphabetic` : la propriété Unicode `Alphabetic`.
pub uninterp spec fn est_alphabetique(c: char) -> bool;

/// Ce que renvoie `str::to_lowercase` : l'équivalent en minuscules du texte.
pub uninterp spec fn minuscules(s: Seq<char>) -> Seq<char>;

/// Position du premier saut de ligne (`\n`) de `t`, ou sa longueur s'il n'y en a pas.
pub open spec fn premier_saut(t: Seq<char>) -> nat
    decreases t.len(),
{
    if t.len() == 0 {
        0
    } else if t[0] == '\n' {
        0
    } else {
        1 + premier_saut(t.drop_first())
    }
}

/// `l` privée d'un retour chariot final.
pub open spec fn sans_retour_chariot(l: Seq<char>) -> Seq<char> {
    if l.len() > 0 && l.last() == '\r' {
        l.drop_last()
    } else {
        l
    }
}

/// Les lignes du texte, comme les découpe `str::lines` : coupure à chaque `\n`,
/// un `\r` juste avant le `\n` ôté avec lui ; la dernière fin de ligne est
/// facultative et un texte vide n'a aucune ligne.
pub open spec fn lignes(t: Seq<char>) -> Seq<Seq<char>>
    decreases t.len(),
{
    if t.len() == 0 {
        seq![]
    } else {
        let i = premier_saut(t);
        if i < t.len() {
            seq![sans_retour_chariot(t.take(i as int))] + lignes(t.skip(i as int + 1))
        } else {
            seq![t]
        }
    }
}

/// Le caractère `c` est-il un blanc ? (même réponse que `char::is_whitespace`)
pub fn blanc(c: char) -> (r: bool)
    ensures
        r == est_blanc(c),
{
    ('\u{9}' <= c && c <= '\u{D}') || c == ' ' || c == '\u{85}' || c == '\u{A0}' || c
        == '\u{1680}' || ('\u{2000}' <= c && c <= '\u{200A}') || c == '\u{2028}' || c
        == '\u{2029}' || c == '\u{202F}' || c == '\u{205F}' || c == '\u{3000}'
}

/// Appelle `char::is_uppercase`. Le contrat lie le résultat au nom `est_majuscule`
/// et n'en dit pas plus : la table Unicode n'est pas énoncée ici.
#[verifier::external_body]
fn majuscule(c: char) -> (r: bool)
    ensures
        r == est_majuscule(c),
{
    c.is_uppercase()
}

/// Appelle `char::is_alphabetic`. Le contrat lie le résultat au nom
/// `est_alphabetique` et n'en dit pas plus : la table Unicode n'est pas énoncée ici.
#[verifier::external_body]
fn alphabetique(c: char) -> (r: bool)
    ensures
        r == est_alphabetique(c),
{
    c.is_alphabetic()
}

/// Appelle `str::to_lowercase`. Le contrat lie le résultat au nom `minuscules`
/// appliqué au texte, et dit seulement que le résultat n'est pas plus court que le
/// texte : la documentation donne pour chaque caractère « un ou plusieurs »
/// caractères minuscules. La table de correspondance Unicode n'est pas énoncée.
#[verifier::external_body]
pub(crate) fn en_minuscules(s: &str) -> (r: String)
    ensures
        r@ == minuscules(s@),
        r@.len() >= s@.len(),
{
    s.to_lowercase()
}

/// Appelle `rand::rng().random_range(0..n)` : un indice tiré au hasard dans
/// `0..n`. Le tirage panique sur un intervalle vide, d'où `n > 0`. Rien d'autre
/// n'est promis : le résultat dépend du générateur aléatoire.
#[verifier::external_body]
fn indice_au_hasard(n: usize) -> (i: usize)
    requires
        n > 0,
    ensures
        i < n,
{
    rand::rng().random_range(0..n)
}

/// `s` privée de ses caractères de tête qui vérifient `p`.
pub open spec fn retirer_debut(s: Seq<char>, p: spec_fn(char) -> bool) -> Seq<char>
    decreases s.len(),
{
    if s.len() > 0 && p(s[0]) {
        retirer_debut(s.drop_first(), p)
    } else {
        s
    }
}

/// `s` privée de ses caractères de queue qui vérifient `p`.
pub open spec fn retirer_fin(s: Seq<char>, p: spec_fn(char) -> bool) -> Seq<char>
    decreases s.len(),
{
    if s.len() > 0 && p(s.last()) {
        retirer_fin(s.drop_last(), p)
    } else {
        s
    }
}

/// Le critère d'élagage : les guillemets droits, ou les blancs.
pub open spec fn critere(guillemets: bool) -> spec_fn(char) -> bool {
    if guillemets {
        |c: char| c == '"'
    } else {
        |c: char| est_blanc(c)
    }
}

/// `s` privée de ses caractères de tête et de queue qui vérifient le critère.
pub open spec fn elaguer(s: Seq<char>, guillemets: bool) -> Seq<char> {
    retirer_fin(retirer_debut(s, critere(guillemets)), critere(guillemets))
}

/// Le mot brut d'une ligne du fichier : blancs retirés, puis guillemets, puis blancs.
pub open spec fn brut(ligne: Seq<char>) -> Seq<char> {
    elaguer(elaguer(elaguer(ligne, false), true), false)
}

/// Un mot brut est jouable s'il est non vide, sans majuscule (ni acronyme ni nom
/// propre), fait uniquement de lettres (accents compris) et de 6 à 9 caractères.
pub open spec fn jouable(b: Seq<char>) -> bool {
    &&& b.len() > 0
    &&& forall|i: int| 0 <= i < b.len() ==> !est_majuscule(#[trigger] b[i])
    &&& forall|i: int| 0 <= i < b.len() ==> est_alphabetique(#[trigger] b[i])
    &&& LONGUEUR_MIN <= b.len() <= LONGUEUR_MAX
}

/// Le mot que donne une ligne du fichier, s'il est jouable : son brut en minuscules.
pub open spec fn normalisation(ligne: Seq<char>) -> Option<Seq<char>> {
    if jouable(brut(ligne)) {
        Some(minuscules(brut(ligne)))
    } else {
        None
    }
}

/// Une ligne dont le mot brut contient une majuscule (acronyme, nom propre) ne
/// donne aucun mot ; de même pour un caractère qui n'est pas une lettre, ou une
/// longueur hors de 6 à 9 ; un mot obtenu est la mise en minuscules d'un brut non
/// vide, sans majuscule, fait de lettres, de 6 à 9 caractères.
pub proof fn loi_normalisation(ligne: Seq<char>)
    ensures
        (exists|i: int| 0 <= i < brut(ligne).len() && est_majuscule(#[trigger] brut(ligne)[i]))
            ==> normalisation(ligne) is None,
        (exists|i: int| 0 <= i < brut(ligne).len() && !est_alphabetique(#[trigger] brut(ligne)[i]))
            ==> normalisation(ligne) is None,
        brut(ligne).len() < 6 || brut(ligne).len() > 9 ==> normalisation(ligne) is None,
        normalisation(ligne) matches Some(w) ==> {
            &&& w == minuscules(brut(ligne))
            &&& 6 <= brut(ligne).len() <= 9
            &&& forall|i: int| 0 <= i < brut(ligne).len() ==> !est_majuscule(#[trigger] brut(ligne)[i])
            &&& forall|i: int| 0 <= i < brut(ligne).len() ==> est_alphabetique(#[trigger] brut(ligne)[i])
        },
{
}

proof fn lemme_retirer_debut(v: Seq<char>, a: int, a2: int, b: int, p: spec_fn(char) -> bool)
    requires
        0 <= a <= a2 <= b <= v.len(),
        forall|k: int| a <= k < a2 ==> p(#[trigger] v[k]),
        a2 == b || !p(v[a2]),
    ensures
        retirer_debut(v.subrange(a, b), p) == v.subrange(a2, b),
    decreases a2 - a,
{
    if a < a2 {
        assert(v.subrange(a, b).drop_first() =~= v.subrange(a + 1, b));
        assert(p(v[a]));
        lemme_retirer_debut(v, a + 1, a2, b, p);
    }
}

proof fn lemme_retirer_fin(v: Seq<char>, a: int, b2: int, b: int, p: spec_fn(char) -> bool)
    requires
        0 <= a <= b2 <= b <= v.len(),
        forall|k: int| b2 <= k < b ==> p(#[trigger] v[k]),
        b2 == a || !p(v[b2 - 1]),
    ensures
        retirer_fin(v.subrange(a, b), p) == v.subrange(a, b2),
    decreases b - b2,
{
    if b2 < b {
        assert(v.subrange(a, b).drop_last() =~= v.subrange(a, b - 1));
        assert(p(v[b - 1]));
        lemme_retirer_fin(v, a, b2, b - 1, p);
    }
}

fn satisfait(c: char, guillemets: bool) -> (r: bool)
    ensures
        r == (critere(guillemets))(c),
{
    if guillemets {
        c == '"'
    } else {
        blanc(c)
    }
}

/// Bornes de `v[a..b]` élagué selon le critère.
pub(crate) fn elaguer_bornes(v: &Vec<char>, a: usize, b: usize, guillemets: bool) -> (r: (usize, usize))
    requires
        a <= b <= v@.len(),
    ensures
        a <= r.0 <= r.1 <= b,
        v@.subrange(r.0 as int, r.1 as int) == elaguer(v@.subrange(a as int, b as int), guillemets),
{
    let mut d = a;
    while d < b && satisfait(v[d], guillemets)
        invariant
            a <= d <= b <= v@.len(),
            forall|k: int| a <= k < d ==> (critere(guillemets))(#[trigger] v@[k]),
        decreases b - d,
    {
        d = d + 1;
    }
    let mut f = b;
    while f > d && satisfait(v[f - 1], guillemets)
        invariant
            a <= d <= f <= b <= v@.len(),
            forall|k: int| f <= k < b ==> (critere(guillemets))(#[trigger] v@[k]),
        decreases f - d,
    {
        f = f - 1;
    }
    proof {
        lemme_retirer_debut(v@, a as int, d as int, b as int, critere(guillemets));
        lemme_retirer_fin(v@, d as int, f as int, b as int, critere(guillemets));
    }
    (d, f)
}

/// Nettoie une ligne du CSV et ne garde que les mots réellement jouables :
/// guillemets retirés, uniquement des lettres (accents compris), longueur bornée,
/// ni acronymes ni noms propres (présence d'une majuscule à la source).
pub fn normaliser(ligne: &str) -> (r: Option<String>)
    ensures
        r is Some <==> normalisation(ligne@) is Some,
        r matches Some(m) ==> normalisation(ligne@) == Some(m@),
        r matches Some(m) ==> m@.len() >= LONGUEUR_MIN,
        (exists|i: int| 0 <= i < brut(ligne@).len() && est_majuscule(#[trigger] brut(ligne@)[i]))
            ==> r is None,
        (exists|i: int|
            0 <= i < brut(ligne@).len() && !est_alphabetique(#[trigger] brut(ligne@)[i])) ==> r is None,
{
    let v = caracteres(ligne);
    assert(v@.subrange(0, v@.len() as int) =~= ligne@);
    normaliser_tranche(&v, 0, v.len())
}

/// `normaliser` appliqué à la ligne `v[debut..fin]`.
fn normaliser_tranche(v: &Vec<char>, debut: usize, fin: usize) -> (r: Option<String>)
    requires
        debut <= fin <= v@.len(),
    ensures
        r is Some <==> normalisation(v@.subrange(debut as int, fin as int)) is Some,
        r matches Some(m) ==> normalisation(v@.subrange(debut as int, fin as int)) == Some(m@),
        r matches Some(m) ==> m@.len() >= LONGUEUR_MIN,
{
    let ghost ligne = v@.subrange(debut as int, fin as int);
    let (a, b) = elaguer_bornes(v, debut, fin, false);
    let (a, b) = elaguer_bornes(v, a, b, true);
    let (a, b) = elaguer_bornes(v, a, b, false);
    let ghost b_vue = v@.subrange(a as int, b as int);
    assert(b_vue == brut(ligne));
    if a == b {
        return None;
    }
    let mut k = a;
    while k < b
        invariant
            a <= k <= b <= v@.len(),
            b_vue == v@.subrange(a as int, b as int),
            b_vue == brut(ligne),
            ligne == v@.subrange(debut as int, fin as int),
            forall|i: int| 0 <= i < k - a ==> !est_majuscule(#[trigger] b_vue[i]),
        decreases b - k,
    {
        if majuscule(v[k]) {
            assert(est_majuscule(b_vue[k - a]));
            assert(!jouable(b_vue));
            return None;
        }
        k = k + 1;
    }
    let mut k = a;
    while k < b
        invariant
            a <= k <= b <= v@.len(),
            b_vue == v@.subrange(a as int, b as int),
            b_vue == brut(ligne),
            ligne == v@.subrange(debut as int, fin as int),
            forall|i: int| 0 <= i < k - a ==> est_alphabetique(#[trigger] b_vue[i]),
        decreases b - k,
    {
        if !alphabetique(v[k]) {
            assert(!est_alphabetique(b_vue[k - a]));
            assert(!jouable(b_vue));
            return None;
        }
        k = k + 1;
    }
    if b - a < LONGUEUR_MIN || b - a > LONGUEUR_MAX {
        return None;
    }
    let mut mot: Vec<char> = Vec::new();
    let mut k = a;
    while k < b
        invariant
            a <= k <= b <= v@.len(),
            mot@ == v@.subrange(a as int, k as int),
        decreases b - k,
    {
        mot.push(v[k]);
        assert(mot@ =~= v@.subrange(a as int, k + 1));
        k = k + 1;
    }
    let s = chaine_de(mot.as_slice());
    Some(en_minuscules(s.as_str()))
}

/// Le mot d'un essai tel que le serveur le lit : blancs de tête et de queue
/// retirés, puis mis en minuscules.
pub open spec fn mot_prepare(mot: Seq<char>) -> Seq<char> {
    minuscules(elaguer(mot, false))
}

/// Prépare le mot proposé par le joueur (`trim` puis `to_lowercase`).
pub fn preparer_essai(mot: &str) -> (r: String)
    ensures
        r@ == mot_prepare(mot@),
{
    let v = caracteres(mot);
    let (a, b) = elaguer_bornes(&v, 0, v.len(), false);
    assert(v@.subrange(0, v@.len() as int) =~= mot@);
    let mut w: Vec<char> = Vec::new();
    let mut k = a;
    while k < b
        invariant
            a <= k <= b <= v@.len(),
            w@ == v@.subrange(a as int, k as int),
        decreases b - k,
    {
        w.push(v[k]);
        assert(w@ =~= v@.subrange(a as int, k + 1));
        k = k + 1;
    }
    let s = chaine_de(w.as_slice());
    en_minuscules(s.as_str())
}

/// Les mots vus comme suites de caractères.
pub open spec fn vues(mots: Seq<String>) -> Seq<Seq<char>> {
    mots.map_values(|m: String| m@)
}

/// Recherche dichotomique de `w` dans une liste de mots strictement croissante :
/// sa position s'il y figure, sinon la position où l'insérer.
fn rechercher(mots: &Vec<String>, w: &[char]) -> (r: Result<usize, usize>)
    requires
        croissante(vues(mots@)),
    ensures
        match r {
            Ok(i) => i < mots@.len() && mots@[i as int]@ == w@,
            Err(i) => {
                &&& i <= mots@.len()
                &&& forall|j: int| 0 <= j < i ==> avant(#[trigger] mots@[j]@, w@)
                &&& forall|j: int| i <= j < mots@.len() ==> avant(w@, #[trigger] mots@[j]@)
                &&& !vues(mots@).contains(w@)
            },
        },
{
    let mut lo: usize = 0;
    let mut hi: usize = mots.len();
    while lo < hi
        invariant
            lo <= hi <= mots@.len(),
            croissante(vues(mots@)),
            forall|j: int| 0 <= j < lo ==> avant(#[trigger] mots@[j]@, w@),
            forall|j: int| hi <= j < mots@.len() ==> avant(w@, #[trigger] mots@[j]@),
        decreases hi - lo,
    {
        let mid = lo + (hi - lo) / 2;
        let m = caracteres(mots[mid].as_str());
        match comparer_mots(m.as_slice(), w) {
            Ordre::Egal => {
                return Ok(mid);
            },
            Ordre::Avant => {
                assert forall|j: int| 0 <= j < mid + 1 implies avant(#[trigger] mots@[j]@, w@) by {
                    if j < mid {
                        assert(avant(vues(mots@)[j], vues(mots@)[mid as int]));
                        lemme_ordre_transitif(mots@[j]@, mots@[mid as int]@, w@);
                    }
                }
                lo = mid + 1;
            },
            Ordre::Apres => {
                assert forall|j: int| mid <= j < mots@.len() implies avant(
                    w@,
                    #[trigger] mots@[j]@,
                ) by {
                    if j > mid {
                        assert(avant(vues(mots@)[mid as int], vues(mots@)[j]));
                        lemme_ordre_transitif(w@, mots@[mid as int]@, mots@[j]@);
                    }
                }
                hi = mid;
            },
        }
    }
    assert forall|j: int| 0 <= j < vues(mots@).len() implies vues(mots@)[j] != w@ by {
        lemme_ordre_total(w@, w@);
        if j < lo {
            assert(avant(mots@[j]@, w@));
        } else {
            assert(avant(w@, mots@[j]@));
        }
    }
    Err(lo)
}

/// Les mots que donnent les lignes `ls` (leurs normalisations jouables).
pub open spec fn mots_des_lignes(ls: Seq<Seq<char>>) -> Set<Seq<char>> {
    Set::new(
        |w: Seq<char>| exists|k: int| 0 <= k < ls.len() && normalisation(#[trigger] ls[k]) == Some(w),
    )
}

/// Les mots que donne le texte d'un fichier de mots.
pub open spec fn mots_du_texte(t: Seq<char>) -> Set<Seq<char>> {
    mots_des_lignes(lignes(t))
}

proof fn lemme_mots_concat(l1: Seq<Seq<char>>, l2: Seq<Seq<char>>)
    ensures
        mots_des_lignes(l1 + l2) == mots_des_lignes(l1).union(mots_des_lignes(l2)),
{
    let l = l1 + l2;
    assert forall|w: Seq<char>| mots_des_lignes(l).contains(w) == mots_des_lignes(l1).union(
        mots_des_lignes(l2),
    ).contains(w) by {
        if mots_des_lignes(l).contains(w) {
            let k = choose|k: int| 0 <= k < l.len() && normalisation(#[trigger] l[k]) == Some(w);
            if k < l1.len() {
                assert(l1[k] == l[k]);
            } else {
                assert(l2[k - l1.len()] == l[k]);
            }
        }
        if mots_des_lignes(l1).contains(w) {
            let k = choose|k: int| 0 <= k < l1.len() && normalisation(#[trigger] l1[k]) == Some(w);
            assert(l[k] == l1[k]);
        }
        if mots_des_lignes(l2).contains(w) {
            let k = choose|k: int| 0 <= k < l2.len() && normalisation(#[trigger] l2[k]) == Some(w);
            assert(l[k + l1.len()] == l2[k]);
        }
    }
    assert(mots_des_lignes(l) =~= mots_des_lignes(l1).union(mots_des_lignes(l2)));
}

proof fn lemme_premier_saut_borne(t: Seq<char>)
    ensures
        premier_saut(t) <= t.len(),
        premier_saut(t) < t.len() ==> t[premier_saut(t) as int] == '\n',
        forall|k: int| 0 <= k < premier_saut(t) ==> t[k] != '\n',
    decreases t.len(),
{
    if t.len() > 0 && t[0] != '\n' {
        lemme_premier_saut_borne(t.drop_first());
        assert forall|k: int| 0 <= k < premier_saut(t) implies t[k] != '\n' by {
            if k > 0 {
                assert(t[k] == t.drop_first()[k - 1]);
            }
        }
    }
}

proof fn lemme_premier_saut_concat(a: Seq<char>, r: Seq<char>)
    ensures
        premier_saut(a + r) == if premier_saut(a) < a.len() {
            premier_saut(a)
        } else {
            a.len() + premier_saut(r)
        },
    decreases a.len(),
{
    lemme_premier_saut_borne(a);
    if a.len() == 0 {
        assert(a + r =~= r);
    } else if a[0] == '\n' {
        assert((a + r)[0] == '\n');
    } else {
        assert((a + r).drop_first() =~= a.drop_first() + r);
        lemme_premier_saut_concat(a.drop_first(), r);
    }
}

/// Les lignes d'un texte fait de `a`, d'un saut de ligne et de `b` sont celles de
/// `a` terminé par ce saut, suivies de celles de `b`.
proof fn lemme_lignes_concat(a: Seq<char>, b: Seq<char>)
    ensures
        lignes(a + seq!['\n'] + b) == lignes(a + seq!['\n']) + lignes(b),
    decreases a.len(),
{
    let x = a + seq!['\n'] + b;
    let y = a + seq!['\n'];
    assert(x =~= a + (seq!['\n'] + b));
    lemme_premier_saut_concat(a, seq!['\n'] + b);
    lemme_premier_saut_concat(a, seq!['\n']);
    lemme_premier_saut_borne(a);
    assert(premier_saut(seq!['\n'] + b) == 0);
    assert(premier_saut(seq!['\n']) == 0);
    let i = premier_saut(a);
    assert(x.take(i as int) =~= y.take(i as int));
    if i == a.len() {
        assert(x.skip(i as int + 1) =~= b);
        assert(y.skip(i as int + 1) =~= Seq::<char>::empty());
        assert(lignes(y.skip(i as int + 1)) =~= Seq::<Seq<char>>::empty());
        assert(lignes(y) =~= seq![sans_retour_chariot(y.take(i as int))]);
    } else {
        let a2 = a.skip(i as int + 1);
        assert(x.skip(i as int + 1) =~= a2 + seq!['\n'] + b);
        assert(y.skip(i as int + 1) =~= a2 + seq!['\n']);
        lemme_lignes_concat(a2, b);
        assert(lignes(x) =~= lignes(y) + lignes(b));
    }
}

proof fn lemme_retirer_debut_push(x: Seq<char>, c: char, p: spec_fn(char) -> bool)
    requires
        p(c),
    ensures
        retirer_debut(x.push(c), p) == if retirer_debut(x, p).len() == 0 {
            Seq::<char>::empty()
        } else {
            retirer_debut(x, p).push(c)
        },
    decreases x.len(),
{
    if x.len() == 0 {
        assert(x.push(c).drop_first() =~= Seq::<char>::empty());
        assert(retirer_debut(Seq::<char>::empty(), p) == Seq::<char>::empty());
        assert(x.push(c)[0] == c);
    } else {
        assert(x.push(c)[0] == x[0]);
        if p(x[0]) {
            assert(x.push(c).drop_first() =~= x.drop_first().push(c));
            lemme_retirer_debut_push(x.drop_first(), c, p);
        }
    }
}

proof fn lemme_retirer_debut_vide_ou(x: Seq<char>, p: spec_fn(char) -> bool)
    ensures
        retirer_debut(x, p).len() > 0 ==> !p(retirer_debut(x, p)[0]),
    decreases x.len(),
{
    if x.len() > 0 && p(x[0]) {
        lemme_retirer_debut_vide_ou(x.drop_first(), p);
    }
}

/// Un retour chariot final ne change pas le mot que donne une ligne.
proof fn lemme_normalisation_retour_chariot(x: Seq<char>)
    ensures
        normalisation(x.push('\r')) == normalisation(x),
{
    let p = critere(false);
    assert(p('\r'));
    lemme_retirer_debut_push(x, '\r', p);
    let y = retirer_debut(x, p);
    if y.len() > 0 {
        assert(y.push('\r').drop_last() =~= y);
    }
    assert(elaguer(x.push('\r'), false) == elaguer(x, false));
}

/// Les mots d'un texte ne changent pas si l'on y ajoute un dernier saut de ligne.
proof fn lemme_mots_fin_de_ligne(a: Seq<char>)
    ensures
        mots_des_lignes(lignes(a + seq!['\n'])) == mots_des_lignes(lignes(a)),
    decreases a.len(),
{
    let y = a + seq!['\n'];
    lemme_premier_saut_concat(a, seq!['\n']);
    lemme_premier_saut_borne(a);
    assert(premier_saut(seq!['\n']) == 0);
    let i = premier_saut(a);
    assert(y.take(i as int) =~= a.take(i as int));
    if i == a.len() {
        assert(y.skip(i as int + 1) =~= Seq::<char>::empty());
        assert(lignes(y.skip(i as int + 1)) =~= Seq::<Seq<char>>::empty());
        assert(y.take(i as int) =~= a);
        assert(lignes(y) =~= seq![sans_retour_chariot(a)]);
        if a.len() == 0 {
            assert(brut(seq![]) =~= Seq::<char>::empty());
            assert(mots_des_lignes(lignes(y)) =~= mots_des_lignes(lignes(a)));
        } else {
            if a.last() == '\r' {
                assert(a.drop_last().push('\r') =~= a);
                lemme_normalisation_retour_chariot(a.drop_last());
            }
            assert(normalisation(sans_retour_chariot(a)) == normalisation(a));
            assert(lignes(a) == seq![a]);
            assert forall|w: Seq<char>| mots_des_lignes(lignes(y)).contains(w) == mots_des_lignes(
                lignes(a),
            ).contains(w) by {
                assert(lignes(y)[0] == sans_retour_chariot(a));
                assert(lignes(a)[0] == a);
            }
            assert(mots_des_lignes(lignes(y)) =~= mots_des_lignes(lignes(a)));
        }
    } else {
        let a2 = a.skip(i as int + 1);
        assert(y.skip(i as int + 1) =~= a2 + seq!['\n']);
        lemme_mots_fin_de_ligne(a2);
        let l = seq![sans_retour_chariot(a.take(i as int))];
        assert(lignes(y) == l + lignes(a2 + seq!['\n']));
        assert(lignes(a) == l + lignes(a2));
        lemme_mots_concat(l, lignes(a2 + seq!['\n']));
        lemme_mots_concat(l, lignes(a2));
    }
}

/// Joindre deux fichiers de mots par un saut de ligne réunit leurs mots : l'ordre
/// des lignes et leurs répétitions ne comptent pas, et un dictionnaire chargé du
/// texte joint a pour mots, triés, la réunion de ceux des deux textes.
pub proof fn loi_textes_joints(a: Seq<char>, b: Seq<char>)
    ensures
        mots_du_texte(a + seq!['\n'] + b) == mots_du_texte(a).union(mots_du_texte(b)),
{
    lemme_lignes_concat(a, b);
    lemme_mots_concat(lignes(a + seq!['\n']), lignes(b));
    lemme_mots_fin_de_ligne(a);
}

proof fn lemme_premier_saut(t: Seq<char>, m: int)
    requires
        0 <= m <= t.len(),
        forall|k: int| 0 <= k < m ==> t[k] != '\n',
        m == t.len() || t[m] == '\n',
    ensures
        premier_saut(t) == m,
    decreases m,
{
    if m > 0 {
        lemme_premier_saut(t.drop_first(), m - 1);
    }
}

/// Ajoute `m` à la liste triée s'il n'y figure pas, en gardant l'ordre.
fn ajouter(mots: &mut Vec<String>, m: String)
    requires
        croissante(vues(old(mots)@)),
        forall|i: int| 0 <= i < old(mots)@.len() ==> #[trigger] old(mots)@[i]@.len() >= LONGUEUR_MIN,
        m@.len() >= LONGUEUR_MIN,
    ensures
        croissante(vues(final(mots)@)),
        forall|i: int| 0 <= i < final(mots)@.len() ==> #[trigger] final(mots)@[i]@.len() >= LONGUEUR_MIN,
        forall|w: Seq<char>|
            vues(final(mots)@).contains(w) <==> (vues(old(mots)@).contains(w) || w == m@),
{
    let ghost mv = m@;
    let ghost avant_mots = vues(mots@);
    let w = caracteres(m.as_str());
    match rechercher(mots, w.as_slice()) {
        Ok(i) => {
            assert(vues(mots@)[i as int] == mv);
        },
        Err(i) => {
            mots.insert(i, m);
            assert(vues(mots@) =~= avant_mots.insert(i as int, mv));
            assert(vues(mots@)[i as int] == mv);
            assert forall|a: int, b: int|
                0 <= a < b < vues(mots@).len() implies avant(
                #[trigger] vues(mots@)[a],
                #[trigger] vues(mots@)[b],
            ) by {
                if b < i {
                    assert(avant(avant_mots[a], avant_mots[b]));
                } else if b == i {
                } else if a < i {
                    assert(avant(avant_mots[a], w@));
                    assert(avant(w@, avant_mots[b - 1]));
                    lemme_ordre_transitif(avant_mots[a], w@, avant_mots[b - 1]);
                } else if a == i {
                } else {
                    assert(avant(avant_mots[a - 1], avant_mots[b - 1]));
                }
            }
            assert forall|k: int| 0 <= k < mots@.len() implies #[trigger] mots@[k]@.len()
                >= LONGUEUR_MIN by {
                if k < i {
                    assert(mots@[k]@ == avant_mots[k]);
                } else if k > i {
                    assert(mots@[k]@ == avant_mots[k - 1]);
                }
            }
            assert forall|x: Seq<char>| avant_mots.contains(x) implies vues(mots@).contains(x) by {
                let j = choose|j: int| 0 <= j < avant_mots.len() && avant_mots[j] == x;
                if j < i {
                    assert(vues(mots@)[j] == x);
                } else {
                    assert(vues(mots@)[j + 1] == x);
                }
            }
            assert forall|x: Seq<char>| vues(mots@).contains(x) implies (avant_mots.contains(x)
                || x == mv) by {
                let j = choose|j: int| 0 <= j < vues(mots@).len() && vues(mots@)[j] == x;
                if j < i {
                    assert(avant_mots[j] == x);
                } else if j > i {
                    assert(avant_mots[j - 1] == x);
                }
            }
        },
    }
}

/// Liste de mots jouables : tirage aléatoire + validation des essais. Les mots
/// sont gardés triés, sans doublon, ce qui permet une recherche dichotomique.
pub struct Dictionnaire {
    mots: Vec<String>,
}

impl Dictionnaire {
    /// Les mots du dictionnaire, dans l'ordre croissant.
    pub closed spec fn mots(&self) -> Seq<Seq<char>> {
        vues(self.mots@)
    }

    #[verifier::type_invariant]
    spec fn bien_forme(&self) -> bool {
        &&& croissante(vues(self.mots@))
        &&& forall|i: int|
            0 <= i < self.mots@.len() ==> #[trigger] self.mots@[i]@.len() >= LONGUEUR_MIN
    }

    /// Construit le dictionnaire à partir du contenu du fichier de mots
    /// (`back/data/mots.csv`, une entrée par ligne) : ses mots sont exactement les
    /// normalisations des lignes jouables, triés et sans doublon.
    pub fn charger(texte: &str) -> (d: Self)
        ensures
            croissante(d.mots()),
            forall|i: int| 0 <= i < d.mots().len() ==> #[trigger] d.mots()[i].len() >= LONGUEUR_MIN,
            forall|w: Seq<char>| d.mots().contains(w) <==> #[trigger] mots_du_texte(texte@).contains(w),
    {
        Self::depuis_texte(texte)
    }

    fn depuis_texte(texte: &str) -> (d: Self)
        ensures
            croissante(d.mots()),
            forall|i: int| 0 <= i < d.mots().len() ==> #[trigger] d.mots()[i].len() >= LONGUEUR_MIN,
            forall|w: Seq<char>|
                d.mots().contains(w) <==> exists|k: int|
                    0 <= k < lignes(texte@).len() && normalisation(#[trigger] lignes(texte@)[k])
                        == Some(w),
    {
        let v = caracteres(texte);
        let n = v.len();
        let ghost t = v@;
        let ghost mut faites: Seq<Seq<char>> = seq![];
        let mut mots: Vec<String> = Vec::new();
        let mut s: usize = 0;
        assert(t.skip(0) =~= t);
        while s < n
            invariant
                n == t.len(),
                t == v@,
                t == texte@,
                s <= n,
                lignes(t) == faites + lignes(t.skip(s as int)),
                croissante(vues(mots@)),
                forall|i: int| 0 <= i < mots@.len() ==> #[trigger] mots@[i]@.len() >= LONGUEUR_MIN,
                forall|w: Seq<char>|
                    vues(mots@).contains(w) <==> exists|k: int|
                        0 <= k < faites.len() && normalisation(#[trigger] faites[k]) == Some(w),
            decreases n - s,
        {
            let mut j = s;
            while j < n && v[j] != '\n'
                invariant
                    s <= j <= n,
                    n == v@.len(),
                    forall|k: int| s <= k < j ==> v@[k] != '\n',
                decreases n - j,
            {
                j = j + 1;
            }
            let ghost reste = t.skip(s as int);
            proof {
                lemme_premier_saut(reste, (j - s) as int);
            }
            let fin = if j < n && j > s && v[j - 1] == '\r' {
                j - 1
            } else {
                j
            };
            let ghost ligne = v@.subrange(s as int, fin as int);
            if j < n {
                assert(reste.take((j - s) as int) =~= v@.subrange(s as int, j as int));
                assert(sans_retour_chariot(reste.take((j - s) as int)) =~= ligne);
                assert(reste.skip((j - s) + 1) =~= t.skip(j + 1));
            } else {
                assert(reste =~= ligne);
            }
            assert(lignes(reste) == seq![ligne] + lignes(
                if j < n {
                    t.skip(j + 1)
                } else {
                    t.skip(n as int)
                },
            ));
            let r = normaliser_tranche(&v, s, fin);
            let ghost avant = vues(mots@);
            match r {
                Some(m) => {
                    ajouter(&mut mots, m);
                },
                None => {},
            }
            proof {
                let nouvelles = faites.push(ligne);
                assert forall|w: Seq<char>|
                    vues(mots@).contains(w) <==> exists|k: int|
                        0 <= k < nouvelles.len() && normalisation(#[trigger] nouvelles[k])
                            == Some(w) by {
                    if exists|k: int|
                        0 <= k < nouvelles.len() && normalisation(#[trigger] nouvelles[k])
                            == Some(w) {
                        let k = choose|k: int|
                            0 <= k < nouvelles.len() && normalisation(#[trigger] nouvelles[k])
                                == Some(w);
                        if k < faites.len() {
                            assert(faites[k] == nouvelles[k]);
                        }
                    }
                    if avant.contains(w) {
                        let k = choose|k: int|
                            0 <= k < faites.len() && normalisation(#[trigger] faites[k]) == Some(w);
                        assert(nouvelles[k] == faites[k]);
                    }
                    assert(nouvelles[faites.len() as int] == ligne);
                }
                assert((faites + seq![ligne]) =~= nouvelles);
                faites = nouvelles;
            }
            s = if j < n {
                j + 1
            } else {
                n
            };
        }
        assert(t.skip(n as int).len() == 0);
        assert(faites + lignes(t.skip(n as int)) =~= faites);
        Dictionnaire { mots }
    }

    /// Nombre de mots.
    pub fn len(&self) -> (n: usize)
        ensures
            n == self.mots().len(),
    {
        self.mots.len()
    }

    /// Le dictionnaire est-il vide ?
    pub fn est_vide(&self) -> (b: bool)
        ensures
            b == (self.mots().len() == 0),
    {
        self.mots.len() == 0
    }

    /// Indique si `mot` (déjà en minuscules) fait partie du dictionnaire.
    pub fn contient(&self, mot: &str) -> (b: bool)
        ensures
            b == self.mots().contains(mot@),
    {
        proof {
            use_type_invariant(self);
        }
        let w = caracteres(mot);
        match rechercher(&self.mots, w.as_slice()) {
            Ok(i) => {
                assert(self.mots()[i as int] == mot@);
                true
            },
            Err(_) => false,
        }
    }

    /// Le mot de rang `i` dans l'ordre croissant.
    pub fn mot(&self, i: usize) -> (m: &str)
        requires
            i < self.mots().len(),
        ensures
            m@ == self.mots()[i as int],
            m@.len() >= LONGUEUR_MIN,
    {
        proof {
            use_type_invariant(self);
        }
        self.mots[i].as_str()
    }

    /// Tire un mot au hasard : le mot de rang tiré. Suppose le dictionnaire non vide
    /// (vérifié au démarrage).
    pub fn mot_aleatoire(&self) -> (m: &str)
        requires
            self.mots().len() > 0,
        ensures
            self.mots().contains(m@),
            m@.len() >= LONGUEUR_MIN,
    {
        let i = indice_au_hasard(self.mots.len());
        self.mot(i)
    }
}

} // verus!
