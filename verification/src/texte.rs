//! Outils sur les chaînes : passage d'un texte à ses caractères et retour.

use vstd::prelude::*;

verus! {

/// Les caractères de `s`, dans l'ordre.
pub fn caracteres(s: &str) -> (r: Vec<char>)
    ensures
        r@ == s@,
{
    broadcast use vstd::string::group_string_axioms;

    let mut r: Vec<char> = Vec::new();
    for c in it: s.chars()
        invariant
            it.seq() == s@,
            r@ == it.seq().take(it.index() as int),
    {
        r.push(c);
    }
    r
}

/// Appelle `FromIterator<char>` de `String` (`iter().collect()`) : la chaîne faite des
/// caractères de `cs`, dans l'ordre.
#[verifier::external_body]
pub(crate) fn chaine_de(cs: &[char]) -> (s: String)
    ensures
        s@ == cs@,
{
    cs.iter().collect()
}

/// Ordre lexicographique strict sur les suites de caractères, caractère par
/// caractère selon le point de code : l'ordre de `Ord` sur `str`.
pub open spec fn avant(a: Seq<char>, b: Seq<char>) -> bool
    decreases a.len(),
{
    if a.len() == 0 {
        b.len() > 0
    } else if b.len() == 0 {
        false
    } else if a[0] != b[0] {
        a[0] < b[0]
    } else {
        avant(a.drop_first(), b.drop_first())
    }
}

/// Suite strictement croissante pour `avant` : triée, sans doublon.
pub open spec fn croissante(m: Seq<Seq<char>>) -> bool {
    forall|i: int, j: int| 0 <= i < j < m.len() ==> avant(#[trigger] m[i], #[trigger] m[j])
}

/// `avant` est irréflexif, transitif et total sur les suites distinctes.
pub proof fn lemme_ordre_total(a: Seq<char>, b: Seq<char>)
    ensures
        !avant(a, a),
        avant(a, b) ==> !avant(b, a),
        a != b ==> avant(a, b) || avant(b, a),
    decreases a.len(),
{
    if a.len() > 0 && b.len() > 0 {
        lemme_ordre_total(a.drop_first(), b.drop_first());
        if a[0] == b[0] && a.drop_first() == b.drop_first() {
            assert(a =~= seq![a[0]] + a.drop_first());
            assert(b =~= seq![b[0]] + b.drop_first());
        }
    } else if a.len() > 0 {
        lemme_ordre_total(a.drop_first(), a.drop_first());
    } else if b.len() == 0 {
        assert(a =~= b);
    }
}

/// Transitivité de `avant`.
pub proof fn lemme_ordre_transitif(a: Seq<char>, b: Seq<char>, c: Seq<char>)
    requires
        avant(a, b),
        avant(b, c),
    ensures
        avant(a, c),
    decreases a.len(),
{
    if a.len() > 0 && b.len() > 0 && c.len() > 0 {
        if a[0] == b[0] && b[0] == c[0] {
            lemme_ordre_transitif(a.drop_first(), b.drop_first(), c.drop_first());
        }
    }
}

/// Issue de la comparaison de deux mots.
pub enum Ordre {
    Avant,
    Egal,
    Apres,
}

proof fn lemme_prefixe_commun(a: Seq<char>, b: Seq<char>, i: int)
    requires
        0 <= i <= a.len(),
        i <= b.len(),
        a.take(i) == b.take(i),
    ensures
        avant(a, b) == avant(a.skip(i), b.skip(i)),
    decreases i,
{
    if i > 0 {
        assert(a[0] == a.take(i)[0]);
        assert(b[0] == b.take(i)[0]);
        assert(a.drop_first().take(i - 1) =~= a.take(i).drop_first());
        assert(b.drop_first().take(i - 1) =~= b.take(i).drop_first());
        lemme_prefixe_commun(a.drop_first(), b.drop_first(), i - 1);
        assert(a.drop_first().skip(i - 1) =~= a.skip(i));
        assert(b.drop_first().skip(i - 1) =~= b.skip(i));
    } else {
        assert(a.skip(0) =~= a);
        assert(b.skip(0) =~= b);
    }
}

/// Compare deux mots dans l'ordre lexicographique `avant`.
pub fn comparer_mots(a: &[char], b: &[char]) -> (o: Ordre)
    ensures
        o is Avant <==> avant(a@, b@),
        o is Egal <==> a@ == b@,
        o is Apres <==> avant(b@, a@),
{
    proof {
        lemme_ordre_total(a@, b@);
    }
    let mut i: usize = 0;
    while i < a.len() && i < b.len()
        invariant
            i <= a@.len(),
            i <= b@.len(),
            a@.take(i as int) == b@.take(i as int),
        decreases a@.len() - i,
    {
        if a[i] != b[i] {
            proof {
                lemme_prefixe_commun(a@, b@, i as int);
                lemme_prefixe_commun(b@, a@, i as int);
                assert(a@.skip(i as int)[0] == a@[i as int]);
                assert(b@.skip(i as int)[0] == b@[i as int]);
            }
            if a[i] < b[i] {
                return Ordre::Avant;
            } else {
                return Ordre::Apres;
            }
        }
        assert(a@.take(i + 1) =~= a@.take(i as int).push(a@[i as int]));
        assert(b@.take(i + 1) =~= b@.take(i as int).push(b@[i as int]));
        i = i + 1;
    }
    proof {
        lemme_prefixe_commun(a@, b@, i as int);
        lemme_prefixe_commun(b@, a@, i as int);
    }
    if a.len() == b.len() {
        assert(a@ =~= a@.take(i as int));
        assert(b@ =~= b@.take(i as int));
        Ordre::Egal
    } else if a.len() < b.len() {
        assert(a@.skip(i as int).len() == 0);
        Ordre::Avant
    } else {
        assert(b@.skip(i as int).len() == 0);
        Ordre::Apres
    }
}

} // verus!
