//! État du serveur : une partie en cours, les parties en mémoire et le traitement
//! des requêtes « nouvelle partie » et « essai ».

use std::collections::HashMap;
use vstd::prelude::*;
use vstd::std_specs::iter::IteratorSpec;

use crate::dictionnaire::{mot_prepare, preparer_essai, Dictionnaire, LONGUEUR_MIN};
use crate::erreur::ApiError;
use crate::jeu::{comparer, statuts, Statut};
use crate::texte::{caracteres, chaine_de};

verus! {

/// Nombre d'essais accordés par partie.
pub const ESSAIS_MAX: u8 = 6;

/// Durée d'inactivité, en nanosecondes (une heure), au-delà de laquelle une partie
/// est purgée.
pub const TTL_PARTIE: u64 = 60 * 60 * 1_000_000_000;

/// Une partie en cours : mot secret et progression.
pub struct Partie {
    secret: Vec<char>,
    pub essais_restants: u8,
    pub termine: bool,
    pub gagne: bool,
    /// Instant de création, en nanosecondes sur l'horloge monotone du serveur.
    pub creee_a: u64,
}

/// Ce que l'on sait d'une partie : son secret et sa progression.
pub struct VuePartie {
    pub lettres: Seq<char>,
    pub essais_restants: u8,
    pub termine: bool,
    pub gagne: bool,
    pub creee_a: u64,
}

impl View for Partie {
    type V = VuePartie;

    closed spec fn view(&self) -> VuePartie {
        VuePartie {
            lettres: self.secret@,
            essais_restants: self.essais_restants,
            termine: self.termine,
            gagne: self.gagne,
            creee_a: self.creee_a,
        }
    }
}

/// La partie après l'essai `essai` : un essai de moins (sans descendre sous zéro),
/// gagnée si toutes les lettres sont bien placées, terminée si elle est gagnée ou
/// qu'il ne reste plus d'essai.
pub open spec fn apres_essai(p: VuePartie, essai: Seq<char>) -> VuePartie {
    let restants = if p.essais_restants > 0 {
        (p.essais_restants - 1) as u8
    } else {
        0u8
    };
    let gagne = forall|i: int|
        0 <= i < essai.len() ==> #[trigger] statuts(essai, p.lettres)[i] == Statut::Correct;
    VuePartie {
        lettres: p.lettres,
        essais_restants: restants,
        termine: gagne || restants == 0,
        gagne,
        creee_a: p.creee_a,
    }
}

/// La partie après la suite d'essais `essais`, joués dans l'ordre.
pub open spec fn apres_essais(p: VuePartie, essais: Seq<Seq<char>>) -> VuePartie
    decreases essais.len(),
{
    if essais.len() == 0 {
        p
    } else {
        apres_essai(apres_essais(p, essais.drop_last()), essais.last())
    }
}

/// Une partie se termine au plus tard à son dernier essai : après au moins autant
/// d'essais qu'il lui en restait (et au moins un), elle est terminée, et le
/// restera, quels que soient les mots proposés. Une partie neuve est donc
/// terminée après `ESSAIS_MAX` essais.
pub proof fn loi_partie_finie(p: VuePartie, essais: Seq<Seq<char>>)
    requires
        essais.len() > 0,
        p.essais_restants <= essais.len(),
    ensures
        apres_essais(p, essais).termine,
        apres_essais(p, essais).essais_restants == 0,
    decreases essais.len(),
{
    if essais.len() > 1 && p.essais_restants <= essais.len() - 1 {
        loi_partie_finie(p, essais.drop_last());
    } else {
        lemme_restants(p, essais.drop_last());
    }
}

/// Le secret et l'instant de création d'une partie ne changent jamais, quels que
/// soient les essais joués.
pub proof fn loi_secret_constant(p: VuePartie, essais: Seq<Seq<char>>)
    ensures
        apres_essais(p, essais).lettres == p.lettres,
        apres_essais(p, essais).creee_a == p.creee_a,
    decreases essais.len(),
{
    if essais.len() > 0 {
        loi_secret_constant(p, essais.drop_last());
    }
}

/// Les essais que le serveur accepte l'un après l'autre sur la partie `p` : chacun
/// a la longueur du secret et arrive alors que la partie n'est pas terminée.
pub open spec fn essais_acceptes(p: VuePartie, essais: Seq<Seq<char>>) -> bool {
    forall|k: int|
        0 <= k < essais.len() ==> !(#[trigger] apres_essais(p, essais.take(k))).termine
            && essais[k].len() == p.lettres.len()
}

/// Déroulement d'une partie neuve sur `secret` après `n` essais acceptés : au plus
/// `ESSAIS_MAX` essais, il en reste `ESSAIS_MAX - n`, le secret n'a pas changé, la
/// partie est gagnée exactement quand le dernier essai est le secret, et terminée
/// exactement quand elle est gagnée ou qu'il ne reste plus d'essai.
pub proof fn loi_deroulement(secret: Seq<char>, creee_a: u64, essais: Seq<Seq<char>>)
    requires
        essais_acceptes(partie_neuve(secret, creee_a), essais),
    ensures
        ({
            let q = apres_essais(partie_neuve(secret, creee_a), essais);
            &&& essais.len() <= ESSAIS_MAX
            &&& q.essais_restants == ESSAIS_MAX - essais.len()
            &&& q.lettres == secret
            &&& q.gagne == (essais.len() > 0 && essais.last() == secret)
            &&& q.termine == (q.gagne || q.essais_restants == 0)
            &&& q.gagne ==> q.termine
        }),
{
    let p = partie_neuve(secret, creee_a);
    if essais.len() > ESSAIS_MAX {
        let six = essais.take(ESSAIS_MAX as int);
        assert(!apres_essais(p, six).termine);
        lemme_restants(p, six);
    }
    lemme_restants(p, essais);
    loi_secret_constant(p, essais);
    if essais.len() > 0 {
        let avant = essais.drop_last();
        loi_secret_constant(p, avant);
        assert(essais.take(essais.len() - 1) =~= avant);
        crate::jeu::loi_bien_placees(essais.last(), apres_essais(p, avant).lettres);
    }
}

proof fn lemme_restants(p: VuePartie, essais: Seq<Seq<char>>)
    ensures
        apres_essais(p, essais).essais_restants == if p.essais_restants >= essais.len() {
            p.essais_restants - essais.len()
        } else {
            0
        },
    decreases essais.len(),
{
    if essais.len() > 0 {
        lemme_restants(p, essais.drop_last());
    }
}

/// Une partie neuve sur `secret`, créée à l'instant `creee_a`.
pub open spec fn partie_neuve(secret: Seq<char>, creee_a: u64) -> VuePartie {
    VuePartie {
        lettres: secret,
        essais_restants: ESSAIS_MAX,
        termine: false,
        gagne: false,
        creee_a,
    }
}

impl Partie {
    /// Une partie neuve sur le mot `secret`, créée à l'instant `creee_a` :
    /// six essais, ni terminée ni gagnée.
    pub fn nouvelle(secret: &str, creee_a: u64) -> (p: Partie)
        ensures
            p@ == partie_neuve(secret@, creee_a),
    {
        Partie {
            secret: caracteres(secret),
            essais_restants: ESSAIS_MAX,
            termine: false,
            gagne: false,
            creee_a,
        }
    }

    /// Nombre de lettres du mot secret.
    pub fn longueur(&self) -> (n: usize)
        ensures
            n == self@.lettres.len(),
    {
        self.secret.len()
    }

    /// La première lettre du secret, donnée d'emblée au joueur.
    pub fn premiere_lettre(&self) -> (c: char)
        requires
            self@.lettres.len() > 0,
        ensures
            c == self@.lettres[0],
    {
        self.secret[0]
    }

    /// Le mot secret en toutes lettres.
    pub fn secret_texte(&self) -> (s: String)
        ensures
            s@ == self@.lettres,
    {
        chaine_de(self.secret.as_slice())
    }

    /// Enregistre un essai (déjà validé : bon dictionnaire, bonne longueur) et
    /// renvoie le statut de chaque lettre. La partie est gagnée exactement quand
    /// l'essai est le secret, et terminée quand elle est gagnée ou que les essais
    /// sont épuisés.
    pub fn jouer(&mut self, essai: &[char]) -> (resultat: Vec<Statut>)
        requires
            essai@.len() == old(self)@.lettres.len(),
        ensures
            resultat@ == statuts(essai@, old(self)@.lettres),
            final(self)@ == apres_essai(old(self)@, essai@),
            final(self)@.gagne == (essai@ == old(self)@.lettres),
    {
        let resultat = comparer(essai, self.secret.as_slice());
        self.essais_restants = self.essais_restants.saturating_sub(1);
        let mut tout_correct = true;
        let mut i: usize = 0;
        while i < resultat.len()
            invariant
                i <= resultat@.len(),
                tout_correct == forall|j: int| 0 <= j < i ==> resultat@[j] == Statut::Correct,
            decreases resultat@.len() - i,
        {
            tout_correct = tout_correct && resultat[i] == Statut::Correct;
            i = i + 1;
        }
        proof {
            crate::jeu::loi_bien_placees(essai@, self.secret@);
        }
        self.gagne = tout_correct;
        self.termine = self.gagne || self.essais_restants == 0;
        resultat
    }
}

/// Réponse au démarrage d'une partie : tout sauf le secret, dont seules la
/// longueur et la première lettre sont données.
pub struct NouvellePartieReponse {
    pub id_partie: u128,
    pub longueur: usize,
    pub premiere_lettre: char,
    pub essais_restants: u8,
}

/// Réponse à un essai accepté.
pub struct EssaiReponse {
    pub resultat: Vec<Statut>,
    pub essais_restants: u8,
    pub termine: bool,
    pub gagne: bool,
    /// Rempli uniquement quand la partie est perdue.
    pub mot_secret: Option<String>,
}

/// Une partie est gardée si elle n'est pas terminée et n'a pas atteint la durée
/// de vie maximale à l'instant `maintenant`.
pub open spec fn a_garder(p: VuePartie, maintenant: u64) -> bool {
    &&& !p.termine
    &&& (if maintenant >= p.creee_a {
        maintenant - p.creee_a
    } else {
        0
    }) < TTL_PARTIE
}

/// Le refus qu'oppose le serveur à l'essai `m` (déjà préparé) sur la partie `id`,
/// dans l'ordre où il vérifie : mot hors dictionnaire, partie inconnue, partie
/// terminée, mauvaise longueur. `None` si l'essai est accepté.
pub open spec fn refus_essai(
    parties: Map<u128, VuePartie>,
    mots: Seq<Seq<char>>,
    id: u128,
    m: Seq<char>,
) -> Option<ApiError> {
    if !mots.contains(m) {
        Some(ApiError::MotInconnu)
    } else if !parties.contains_key(id) {
        Some(ApiError::PartieIntrouvable)
    } else if parties[id].termine {
        Some(ApiError::PartieTerminee)
    } else if m.len() != parties[id].lettres.len() {
        Some(ApiError::MauvaiseLongueur { attendue: parties[id].lettres.len() as usize })
    } else {
        None
    }
}

fn a_garder_exec(p: &Partie, maintenant: u64) -> (b: bool)
    ensures
        b == a_garder(p@, maintenant),
{
    !p.termine && maintenant.saturating_sub(p.creee_a) < TTL_PARTIE
}

/// Une partie terminée, qu'elle soit gagnée ou perdue, n'est jamais gardée par la
/// purge ; une partie qui a atteint sa durée de vie non plus ; toute autre l'est.
pub proof fn loi_purge(p: VuePartie, maintenant: u64)
    ensures
        p.termine ==> !a_garder(p, maintenant),
        p.creee_a <= maintenant && maintenant - p.creee_a >= TTL_PARTIE ==> !a_garder(p, maintenant),
        !p.termine && (maintenant < p.creee_a || maintenant - p.creee_a < TTL_PARTIE) ==> a_garder(
            p,
            maintenant,
        ),
{
}

/// Un essai n'est accepté que sur une partie en mémoire et non terminée, avec un mot
/// du dictionnaire de la longueur du secret ; sur une partie terminée (gagnée ou
/// perdue), un mot du dictionnaire est refusé comme « partie terminée ».
pub proof fn loi_refus_essai(
    parties: Map<u128, VuePartie>,
    mots: Seq<Seq<char>>,
    id: u128,
    m: Seq<char>,
)
    ensures
        refus_essai(parties, mots, id, m) is None <==> {
            &&& parties.contains_key(id)
            &&& !parties[id].termine
            &&& mots.contains(m)
            &&& m.len() == parties[id].lettres.len()
        },
        parties.contains_key(id) && parties[id].termine && mots.contains(m) ==> refus_essai(
            parties,
            mots,
            id,
            m,
        ) == Some(ApiError::PartieTerminee),
        !mots.contains(m) ==> refus_essai(parties, mots, id, m) == Some(ApiError::MotInconnu),
        mots.contains(m) && !parties.contains_key(id) ==> refus_essai(parties, mots, id, m) == Some(
            ApiError::PartieIntrouvable,
        ),
{
}

/// Une partie à laquelle le serveur accepte un essai de plus n'était pas terminée :
/// une suite d'essais acceptés prolongée d'un essai que `refus_essai` laisse passer
/// reste une suite d'essais acceptés.
pub proof fn loi_essai_accepte_prolonge(
    p: VuePartie,
    essais: Seq<Seq<char>>,
    mots: Seq<Seq<char>>,
    id: u128,
    m: Seq<char>,
)
    requires
        essais_acceptes(p, essais),
        refus_essai(Map::<u128, VuePartie>::empty().insert(id, apres_essais(p, essais)), mots, id, m) is None,
    ensures
        essais_acceptes(p, essais.push(m)),
{
    let s = essais.push(m);
    loi_secret_constant(p, essais);
    assert forall|k: int| 0 <= k < s.len() implies !(#[trigger] apres_essais(p, s.take(k))).termine
        && s[k].len() == p.lettres.len() by {
        assert(s.take(k) =~= essais.take(k) || k == essais.len());
        if k < essais.len() {
            assert(s.take(k) =~= essais.take(k));
            assert(s[k] == essais[k]);
        } else {
            assert(s.take(k) =~= essais);
        }
    }
}

/// Appelle `uuid::Uuid::new_v4` et rend l'identifiant sous sa forme `as_u128`.
/// L'identifiant est tiré au hasard : rien n'en est promis (les bits de version et
/// de variante que fixe `new_v4` ne sont pas énoncés).
#[verifier::external_body]
fn nouvel_identifiant() -> u128 {
    uuid::Uuid::new_v4().as_u128()
}

/// Les parties en mémoire, rangées sous leur identifiant.
pub struct Parties {
    parties: HashMap<u128, Partie>,
}

impl Parties {
    /// Chaque partie en mémoire, sous son identifiant.
    pub closed spec fn vue(&self) -> Map<u128, VuePartie> {
        self.parties@.map_values(|p: Partie| p@)
    }

    /// Aucune partie.
    pub fn new() -> (p: Parties)
        ensures
            p.vue() == Map::<u128, VuePartie>::empty(),
    {
        let p = Parties { parties: HashMap::new() };
        assert(p.vue() =~= Map::<u128, VuePartie>::empty());
        p
    }

    /// Démarre une partie sur `secret`, sous l'identifiant `id`, à l'instant
    /// `maintenant`, et renvoie ce que le front en apprend.
    pub fn demarrer(&mut self, secret: &str, id: u128, maintenant: u64) -> (r:
        NouvellePartieReponse)
        requires
            secret@.len() > 0,
        ensures
            final(self).vue() == old(self).vue().insert(id, partie_neuve(secret@, maintenant)),
            r.id_partie == id,
            r.longueur == secret@.len(),
            r.premiere_lettre == secret@[0],
            r.essais_restants == ESSAIS_MAX,
    {
        broadcast use vstd::std_specs::hash::group_hash_axioms;

        let partie = Partie::nouvelle(secret, maintenant);
        let r = NouvellePartieReponse {
            id_partie: id,
            longueur: partie.longueur(),
            premiere_lettre: partie.premiere_lettre(),
            essais_restants: partie.essais_restants,
        };
        let ghost avant = self.vue();
        let ghost vp = partie@;
        self.parties.insert(id, partie);
        assert(self.vue() =~= avant.insert(id, vp));
        r
    }

    /// Nombre de parties en mémoire.
    pub fn len(&self) -> (n: usize)
        ensures
            n == self.vue().len(),
    {
        broadcast use vstd::std_specs::hash::group_hash_axioms;

        assert(self.vue().dom() =~= self.parties@.dom());
        self.parties.len()
    }

    /// Retire les parties terminées ou expirées à l'instant `maintenant` (en
    /// nanosecondes sur l'horloge des parties). Renvoie le nombre supprimé.
    pub fn purger(&mut self, maintenant: u64) -> (n: usize)
        ensures
            forall|k: u128|
                #[trigger] final(self).vue().contains_key(k) <==> old(self).vue().contains_key(k)
                    && a_garder(old(self).vue()[k], maintenant),
            forall|k: u128|
                #[trigger] final(self).vue().contains_key(k) ==> final(self).vue()[k] == old(
                    self,
                ).vue()[k],
            n == old(self).vue().len() - final(self).vue().len(),
            // Aucune partie terminée ne reste, quelle que soit sa date de création.
            forall|k: u128| #[trigger] final(self).vue().contains_key(k) ==> !final(self).vue()[k].termine,
            // Aucune partie ayant atteint sa durée de vie ne reste.
            forall|k: u128|
                #[trigger] final(self).vue().contains_key(k) ==> !(final(self).vue()[k].creee_a
                    <= maintenant && maintenant - final(self).vue()[k].creee_a >= TTL_PARTIE),
            // Toute partie non terminée et encore dans sa durée de vie est gardée.
            forall|k: u128|
                #[trigger] old(self).vue().contains_key(k) && !old(self).vue()[k].termine && (
                maintenant < old(self).vue()[k].creee_a || maintenant - old(self).vue()[k].creee_a
                    < TTL_PARTIE) ==> final(self).vue().contains_key(k),
    {
        broadcast use vstd::std_specs::hash::group_hash_axioms;

        let ghost depart = self.parties@;
        let avant = self.len();
        let ghost ks = vstd::std_specs::hash::spec_keys_iter(&self.parties).remaining();
        assert(ks.unref().to_set() == depart.dom());
        let mut cles: Vec<u128> = Vec::new();
        for k in it: self.parties.keys()
            invariant
                self.parties@ == depart,
                it.seq() == ks,
                cles@ == ks.take(it.index() as int).unref(),
        {
            cles.push(*k);
            assert(cles@ =~= ks.take(it.index() + 1).unref());
        }
        assert(cles@ =~= ks.unref());
        assert(cles@.to_set() == depart.dom());
        assert(cles@.no_duplicates()) by {
            assert forall|a: int, b: int| 0 <= a < b < cles@.len() implies cles@[a] != cles@[b] by {
                assert(ks[a] != ks[b]);
            }
        }
        let mut gardees: HashMap<u128, Partie> = HashMap::new();
        let n = cles.len();
        let mut i: usize = 0;
        while i < n
            invariant
                n == cles@.len(),
                i <= n,
                cles@.no_duplicates(),
                cles@.to_set() == depart.dom(),
                forall|k: u128|
                    #[trigger] self.parties@.contains_key(k) <==> depart.contains_key(k) && (
                    exists|j: int| i <= j < n && cles@[j] == k),
                forall|k: u128|
                    #[trigger] self.parties@.contains_key(k) ==> self.parties@[k] == depart[k],
                forall|k: u128|
                    #[trigger] gardees@.contains_key(k) <==> depart.contains_key(k) && a_garder(
                        depart[k]@,
                        maintenant,
                    ) && (exists|j: int| 0 <= j < i && cles@[j] == k),
                forall|k: u128| #[trigger] gardees@.contains_key(k) ==> gardees@[k] == depart[k],
            decreases n - i,
        {
            let k = cles[i];
            match self.parties.remove(&k) {
                Some(p) => {
                    if a_garder_exec(&p, maintenant) {
                        gardees.insert(k, p);
                    }
                },
                None => {},
            }
            i = i + 1;
        }
        self.parties = gardees;
        let apres = self.len();
        proof {
            let vo = depart.map_values(|p: Partie| p@);
            assert forall|k: u128| self.parties@.contains_key(k) implies exists|j: int|
                0 <= j < n && cles@[j] == k by {}
            assert forall|k: u128| depart.contains_key(k) implies exists|j: int|
                0 <= j < n && cles@[j] == k by {
                assert(cles@.to_set().contains(k));
            }
            assert(self.vue().dom().subset_of(vo.dom()));
            vstd::seq_lib::seq_to_set_is_finite(cles@);
            assert(vo.dom() =~= cles@.to_set());
            vstd::set_lib::lemma_len_subset(self.vue().dom(), vo.dom());
            assert(self.vue().dom() =~= self.parties@.dom());
        }
        avant - apres
    }

    /// Tire un mot du dictionnaire, crée la partie sous un identifiant neuf et
    /// renvoie ce que le front en apprend : ni le mot tiré ni l'identifiant ne sont
    /// fixés d'avance, mais la partie créée est neuve, sur un mot du dictionnaire.
    pub fn nouvelle_partie(&mut self, dico: &Dictionnaire, maintenant: u64) -> (rep:
        NouvellePartieReponse)
        requires
            dico.mots().len() > 0,
        ensures
            ({
                let secret = final(self).vue()[rep.id_partie].lettres;
                &&& dico.mots().contains(secret)
                &&& secret.len() >= LONGUEUR_MIN
                &&& final(self).vue() == old(self).vue().insert(
                    rep.id_partie,
                    partie_neuve(secret, maintenant),
                )
                &&& rep.longueur == secret.len()
                &&& rep.premiere_lettre == secret[0]
                &&& rep.essais_restants == ESSAIS_MAX
            }),
    {
        let secret = dico.mot_aleatoire();
        let id = nouvel_identifiant();
        let r = self.demarrer(secret, id, maintenant);
        assert(self.vue()[id] == partie_neuve(secret@, maintenant));
        assert(self.vue()[r.id_partie].lettres == secret@);
        r
    }

    /// Enregistre l'essai `mot` sur la partie `id`. Le mot est d'abord préparé
    /// (blancs retirés, minuscules) ; il est refusé s'il n'est pas au dictionnaire,
    /// si la partie est inconnue ou terminée, ou s'il n'a pas la longueur du secret,
    /// et rien ne change alors. Sinon la partie avance d'un essai et la réponse
    /// donne le statut de chaque lettre ; le secret n'y figure que si la partie est
    /// perdue.
    pub fn essai(&mut self, dico: &Dictionnaire, id: u128, mot: &str) -> (r: Result<
        EssaiReponse,
        ApiError,
    >)
        ensures
            ({
                let m = mot_prepare(mot@);
                let avant = old(self).vue();
                match refus_essai(avant, dico.mots(), id, m) {
                    Some(e) => r == Err::<EssaiReponse, ApiError>(e) && final(self).vue() == avant,
                    None => {
                        let p = apres_essai(avant[id], m);
                        &&& r is Ok
                        &&& final(self).vue() == avant.insert(id, p)
                        &&& r->Ok_0.resultat@ == statuts(m, avant[id].lettres)
                        &&& r->Ok_0.essais_restants == p.essais_restants
                        &&& r->Ok_0.termine == p.termine
                        &&& r->Ok_0.gagne == p.gagne
                        &&& p.gagne == (m == avant[id].lettres)
                        &&& (r->Ok_0.mot_secret is Some <==> p.termine && !p.gagne)
                        &&& (r->Ok_0.mot_secret matches Some(s) ==> s@ == p.lettres)
                    },
                }
            }),
            // Un essai accepté porte sur une partie en mémoire et non terminée, avec un mot
            // du dictionnaire de la longueur du secret.
            r is Ok ==> {
                &&& old(self).vue().contains_key(id)
                &&& !old(self).vue()[id].termine
                &&& dico.mots().contains(mot_prepare(mot@))
                &&& mot_prepare(mot@).len() == old(self).vue()[id].lettres.len()
            },
            // Une partie terminée, gagnée ou perdue, refuse tout essai du dictionnaire et
            // reste telle quelle.
            old(self).vue().contains_key(id) && old(self).vue()[id].termine && dico.mots().contains(
                mot_prepare(mot@),
            ) ==> r == Err::<EssaiReponse, ApiError>(ApiError::PartieTerminee) && final(self).vue()
                == old(self).vue(),
            r is Err ==> final(self).vue() == old(self).vue(),
    {
        broadcast use vstd::std_specs::hash::group_hash_axioms;

        let m = preparer_essai(mot);
        if !dico.contient(m.as_str()) {
            return Err(ApiError::MotInconnu);
        }
        let lettres = caracteres(m.as_str());
        let ghost avant = self.vue();
        match self.parties.get(&id) {
            None => {
                return Err(ApiError::PartieIntrouvable);
            },
            Some(p) => {
                assert(avant[id] == p@);
                if p.termine {
                    return Err(ApiError::PartieTerminee);
                }
                if lettres.len() != p.longueur() {
                    return Err(ApiError::MauvaiseLongueur { attendue: p.longueur() });
                }
            },
        }
        let mut partie = match self.parties.remove(&id) {
            Some(p) => p,
            None => {
                return Err(ApiError::PartieIntrouvable);
            },
        };
        assert(partie@ == avant[id]);
        let resultat = partie.jouer(lettres.as_slice());
        let mot_secret = if partie.termine && !partie.gagne {
            Some(partie.secret_texte())
        } else {
            None
        };
        let reponse = EssaiReponse {
            resultat,
            essais_restants: partie.essais_restants,
            termine: partie.termine,
            gagne: partie.gagne,
            mot_secret,
        };
        let ghost vp = partie@;
        self.parties.insert(id, partie);
        assert(self.vue() =~= avant.insert(id, vp));
        Ok(reponse)
    }
}

} // verus!
