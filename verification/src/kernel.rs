//! The Tape: an append-only DAG of knowledge nodes.
//!
//! Every node is stored under its id; `time_arrow` records the ids in the
//! order in which they were appended, and every citation of a node names a
//! node that came earlier on the time arrow. `reverse_citations` lists, for
//! each cited node, the nodes that cite it.
//!
//! The tape is generic over the type `P` of the reward and price carried by
//! each node; the tape never computes with them.

use vstd::prelude::*;
use vstd::hash_map::StringHashMap;
use vstd::string::*;
use crate::text::{contains, str_contains};

verus! {

broadcast use vstd::string::group_string_axioms;

pub type Token = u64;

pub type FileId = String;

/// Whether the machine keeps running.
#[derive(Debug, Clone, Copy, PartialEq, Eq, Structural)]
pub enum MachineState {
    Running,
    Halt,
}

/// The node ids an agent is reading from, each once.
#[derive(Clone)]
pub struct Head {
    pub paths: Vec<FileId>,
}

/// Whether `ids` names `id`.
pub fn names(list: &Vec<String>, id: &str) -> (b: bool)
    ensures
        b == ids(list@).contains(id@),
{
    let target = id.to_owned();
    let mut i: usize = 0;
    while i < list.len()
        invariant
            i <= list@.len(),
            target@ == id@,
            forall|k: int| 0 <= k < i ==> ids(list@)[k] != id@,
        decreases list@.len() - i,
    {
        if list[i] == target {
            assert(ids(list@)[i as int] == id@);
            return true;
        }
        i = i + 1;
    }
    false
}

impl Head {
    /// The ids the head reads from.
    pub open spec fn path_set(&self) -> Set<Seq<char>> {
        ids(self.paths@).to_set()
    }

    /// No id is listed twice.
    pub open spec fn wf(&self) -> bool {
        ids(self.paths@).no_duplicates()
    }

    /// A head that reads from nothing.
    pub fn new() -> (h: Head)
        ensures
            h.wf(),
            h.path_set() == Set::<Seq<char>>::empty(),
    {
        let h = Head { paths: Vec::new() };
        assert(ids(h.paths@) =~= Seq::<Seq<char>>::empty());
        assert(h.path_set() =~= Set::<Seq<char>>::empty());
        h
    }

    /// Whether the head reads from `id`.
    pub fn reads(&self, id: &str) -> (b: bool)
        ensures
            b == self.path_set().contains(id@),
    {
        names(&self.paths, id)
    }

    /// After a node is appended: the head reads from the new node instead of
    /// the nodes it cites.
    pub fn advance(&mut self, new_id: &str, citations: &Vec<FileId>)
        requires
            old(self).wf(),
        ensures
            final(self).wf(),
            final(self).path_set() == old(self).path_set().insert(new_id@).difference(ids(citations@).to_set()),
    {
        let ghost old_ids = ids(self.paths@);
        let ghost cs = ids(citations@).to_set();
        let mut kept: Vec<String> = Vec::new();
        let mut i: usize = 0;
        while i < self.paths.len()
            invariant
                i <= self.paths@.len(),
                old_ids == ids(self.paths@),
                old_ids.no_duplicates(),
                cs == ids(citations@).to_set(),
                ids(kept@).no_duplicates(),
                forall|x: Seq<char>|
                    #![trigger ids(kept@).contains(x)]
                    #![trigger old_ids.take(i as int).contains(x)]
                    ids(kept@).contains(x) <==> (old_ids.take(i as int).contains(x) && !cs.contains(x)),
            decreases self.paths@.len() - i,
        {
            let ghost before = ids(kept@);
            let p = &self.paths[i];
            proof {
                assert(old_ids[i as int] == p@);
                assert(old_ids.take(i + 1) =~= old_ids.take(i as int).push(p@));
            }
            let keep = !names(citations, p.as_str());
            if keep {
                proof {
                    if before.contains(p@) {
                        assert(old_ids.take(i as int).contains(p@));
                        let k = choose|k: int| 0 <= k < old_ids.take(i as int).len() && old_ids.take(i as int)[k] == p@;
                        assert(old_ids.take(i as int)[k] == old_ids[k]);
                        assert(false);
                    }
                }
                kept.push(p.clone());
                proof {
                    assert(ids(kept@) =~= before.push(p@));
                }
            }
            proof {
                let t0 = old_ids.take(i as int);
                let t1 = old_ids.take(i + 1);
                assert(t1 == t0.push(p@));
                assert forall|x: Seq<char>| ids(kept@).contains(x) <==> (t1.contains(x) && !cs.contains(x)) by {
                    vstd::seq_lib::lemma_seq_contains_after_push(t0, p@, x);
                    assert(before.contains(x) <==> (t0.contains(x) && !cs.contains(x)));
                    if keep {
                        vstd::seq_lib::lemma_seq_contains_after_push(before, p@, x);
                    } else {
                        assert(ids(kept@) == before);
                    }
                }
            }
            i = i + 1;
        }
        assert(old_ids.take(self.paths@.len() as int) =~= old_ids);
        let ghost k0 = ids(kept@);
        let cited = names(citations, new_id);
        let present = names(&kept, new_id);
        if !cited && !present {
            kept.push(new_id.to_owned());
            assert(ids(kept@) =~= k0.push(new_id@));
        }
        self.paths = kept;
        proof {
            assert forall|x: Seq<char>| self.path_set().contains(x)
                <==> old(self).path_set().insert(new_id@).difference(cs).contains(x) by {
                assert(k0.contains(x) <==> (old_ids.take(old_ids.len() as int).contains(x) && !cs.contains(x)));
                assert(old_ids.take(old_ids.len() as int) == old_ids);
                if !cited && !present {
                    vstd::seq_lib::lemma_seq_contains_after_push(k0, new_id@, x);
                } else {
                    assert(ids(self.paths@) == k0);
                }
            }
            assert(self.path_set() =~= old(self).path_set().insert(new_id@).difference(cs));
        }
    }
}

/// What an agent writes: one node for the tape.
pub struct Action {
    pub file_id: FileId,
    pub author: String,
    pub payload: String,
    pub citations: Vec<FileId>,
    pub stake: Token,
}

/// An agent's answer: the next machine state and the node it writes.
pub struct Output {
    pub q_o: MachineState,
    pub a_o: Action,
}

/// One node of the tape.
pub struct File<P> {
    pub id: FileId,
    pub author: String,
    pub payload: String,
    pub citations: Vec<FileId>,
    pub stake: Token,
    pub intrinsic_reward: P,
    pub price: P,
}

/// The append-only knowledge DAG.
#[verifier::reject_recursive_types(P)]
pub struct Tape<P> {
    pub files: StringHashMap<File<P>>,
    pub reverse_citations: StringHashMap<Vec<FileId>>,
    /// Insertion order of all node ids: a topological order of the DAG.
    pub time_arrow: Vec<FileId>,
}

/// The character sequences of a list of strings.
pub open spec fn ids(v: Seq<String>) -> Seq<Seq<char>> {
    v.map_values(|s: String| s@)
}

pub type Files<P> = Map<Seq<char>, File<P>>;

pub type Reverse = Map<Seq<char>, Seq<Seq<char>>>;

impl<P> File<P> {
    /// Two nodes that agree in every field.
    pub open spec fn same_as(self, other: File<P>) -> bool {
        &&& self.id == other.id
        &&& self.author == other.author
        &&& self.payload == other.payload
        &&& self.citations@ == other.citations@
        &&& self.stake == other.stake
        &&& self.intrinsic_reward == other.intrinsic_reward
        &&& self.price == other.price
    }

    /// The ids this node cites, in order.
    pub open spec fn cites(&self) -> Seq<Seq<char>> {
        ids(self.citations@)
    }
}

/// The citations in `cs` that name a node stored in `files`, in order.
pub open spec fn known_citations<P>(files: Files<P>, cs: Seq<Seq<char>>) -> Seq<Seq<char>>
    decreases cs.len(),
{
    if cs.len() == 0 {
        seq![]
    } else {
        let rest = known_citations(files, cs.drop_last());
        if files.contains_key(cs.last()) {
            rest.push(cs.last())
        } else {
            rest
        }
    }
}

/// `rev` after `child` is recorded once under each of `parents`, in order.
pub open spec fn add_child(rev: Reverse, parents: Seq<Seq<char>>, child: Seq<char>) -> Reverse
    decreases parents.len(),
{
    if parents.len() == 0 {
        rev
    } else {
        let r = add_child(rev, parents.drop_last(), child);
        let p = parents.last();
        r.insert(p, (if r.contains_key(p) { r[p] } else { seq![] }).push(child))
    }
}

/// The reverse-citation index built by appending the nodes of `arrow` in order.
pub open spec fn rev_of<P>(files: Files<P>, arrow: Seq<Seq<char>>) -> Reverse
    decreases arrow.len(),
{
    if arrow.len() == 0 {
        Map::empty()
    } else {
        add_child(rev_of(files, arrow.drop_last()), files[arrow.last()].cites(), arrow.last())
    }
}

impl<P> Tape<P> {
    /// The time arrow as character sequences.
    pub open spec fn arrow(&self) -> Seq<Seq<char>> {
        ids(self.time_arrow@)
    }

    /// The reverse-citation index as character sequences.
    pub open spec fn rev_view(&self) -> Reverse {
        Map::new(
            |k: Seq<char>| self.reverse_citations@.contains_key(k),
            |k: Seq<char>| ids(self.reverse_citations@[k]@),
        )
    }

    /// Every citation of the node at position `i` names a node before it.
    pub open spec fn causal(&self) -> bool {
        forall|i: int, c: Seq<char>|
            0 <= i < self.arrow().len() && #[trigger] self.files@[self.arrow()[i]].cites().contains(c)
                ==> self.arrow().subrange(0, i).contains(c)
    }

    /// The invariant that every operation of the tape keeps.
    pub open spec fn wf(&self) -> bool {
        &&& self.arrow().no_duplicates()
        &&& forall|k: Seq<char>| #[trigger] self.files@.contains_key(k) <==> self.arrow().contains(k)
        &&& forall|k: Seq<char>| #[trigger] self.files@.contains_key(k) ==> self.files@[k].id@ == k
        &&& self.causal()
        &&& self.rev_view() == rev_of(self.files@, self.arrow())
    }
}

// ---------------------------------------------------------------------------
// Lemmas about the specifications
// ---------------------------------------------------------------------------

proof fn lemma_ids_push(v: Seq<String>, s: String)
    ensures
        ids(v.push(s)) == ids(v).push(s@),
{
    assert(ids(v.push(s)) =~= ids(v).push(s@));
}

/// `rev_of` only looks at the nodes on the arrow.
proof fn lemma_rev_of_agree<P>(f1: Files<P>, f2: Files<P>, arrow: Seq<Seq<char>>)
    requires
        forall|i: int| 0 <= i < arrow.len() ==> f1[#[trigger] arrow[i]] == f2[arrow[i]],
    ensures
        rev_of(f1, arrow) == rev_of(f2, arrow),
    decreases arrow.len(),
{
    if arrow.len() > 0 {
        let a = arrow.drop_last();
        assert forall|i: int| 0 <= i < a.len() implies f1[#[trigger] a[i]] == f2[a[i]] by {
            assert(a[i] == arrow[i]);
        }
        lemma_rev_of_agree(f1, f2, a);
        assert(f1[arrow.last()] == f2[arrow[arrow.len() - 1]]);
    }
}

proof fn lemma_known_citations_push<P>(files: Files<P>, cs: Seq<Seq<char>>, c: Seq<char>)
    ensures
        known_citations(files, cs.push(c)) == (if files.contains_key(c) {
            known_citations(files, cs).push(c)
        } else {
            known_citations(files, cs)
        }),
{
    assert(cs.push(c).drop_last() =~= cs);
}

proof fn lemma_known_citations_known<P>(files: Files<P>, cs: Seq<Seq<char>>)
    ensures
        forall|c: Seq<char>| #[trigger] known_citations(files, cs).contains(c) ==> files.contains_key(c) && cs.contains(c),
    decreases cs.len(),
{
    if cs.len() > 0 {
        lemma_known_citations_known(files, cs.drop_last());
        let rest = known_citations(files, cs.drop_last());
        assert forall|c: Seq<char>| #[trigger] known_citations(files, cs).contains(c) implies files.contains_key(c) && cs.contains(c) by {
            if rest.contains(c) {
                let j = choose|j: int| 0 <= j < cs.drop_last().len() && cs.drop_last()[j] == c;
                assert(cs[j] == c);
            } else {
                assert(c == cs.last());
                assert(cs[cs.len() - 1] == c);
            }
        }
    }
}

proof fn lemma_add_child_push(rev: Reverse, parents: Seq<Seq<char>>, p: Seq<char>, child: Seq<char>)
    ensures
        add_child(rev, parents.push(p), child) == ({
            let r = add_child(rev, parents, child);
            r.insert(p, (if r.contains_key(p) { r[p] } else { seq![] }).push(child))
        }),
{
    assert(parents.push(p).drop_last() =~= parents);
}

// ---------------------------------------------------------------------------
// Executable operations
// ---------------------------------------------------------------------------

/// A copy of a list of strings.
pub fn clone_strings(v: &Vec<String>) -> (r: Vec<String>)
    ensures
        r@ == v@,
{
    let mut r: Vec<String> = Vec::new();
    let mut i: usize = 0;
    while i < v.len()
        invariant
            i <= v@.len(),
            r@ == v@.subrange(0, i as int),
        decreases v@.len() - i,
    {
        r.push(v[i].clone());
        assert(r@ =~= v@.subrange(0, i + 1));
        i = i + 1;
    }
    assert(r@ =~= v@);
    r
}

impl<P: Copy> File<P> {
    /// A field-by-field copy of the node.
    pub fn duplicate(&self) -> (r: File<P>)
        ensures
            r.same_as(*self),
    {
        File {
            id: self.id.clone(),
            author: self.author.clone(),
            payload: self.payload.clone(),
            citations: clone_strings(&self.citations),
            stake: self.stake,
            intrinsic_reward: self.intrinsic_reward,
            price: self.price,
        }
    }
}

impl<P: Copy> Tape<P> {
    /// The empty tape.
    pub fn new() -> (t: Tape<P>)
        ensures
            t.wf(),
            t.files@ == Map::<Seq<char>, File<P>>::empty(),
            t.arrow() == Seq::<Seq<char>>::empty(),
            t.rev_view() == Map::<Seq<char>, Seq<Seq<char>>>::empty(),
    {
        let t = Tape { files: StringHashMap::new(), reverse_citations: StringHashMap::new(), time_arrow: Vec::new() };
        assert(t.arrow() =~= Seq::<Seq<char>>::empty());
        assert(t.rev_view() =~= Map::<Seq<char>, Seq<Seq<char>>>::empty());
        t
    }
}


/// The message with which a second node under an existing id is refused.
pub open spec fn duplicate_message(id: Seq<char>) -> Seq<char> {
    "Spacetime Paradox: Node ID "@ + id + " already exists."@
}

impl<P: Copy> Tape<P> {
    /// Appends `file` with `reward` as its intrinsic reward and its price.
    ///
    /// A node whose id is already on the tape is refused and the tape is left
    /// as it was. Otherwise citations of ids that are not on the tape are
    /// dropped, the node is stored, its id goes to the end of the time arrow
    /// and it is listed as a child of each node it cites.
    pub fn append(&mut self, file: File<P>, reward: P) -> (r: Result<&File<P>, String>)
        requires
            old(self).wf(),
        ensures
            final(self).wf(),
            old(self).files@.contains_key(file.id@) ==> {
                &&& r matches Err(msg) && msg@ == duplicate_message(file.id@)
                &&& final(self).files@ == old(self).files@
                &&& final(self).arrow() == old(self).arrow()
                &&& final(self).rev_view() == old(self).rev_view()
            },
            !old(self).files@.contains_key(file.id@) ==> {
                let known = known_citations(old(self).files@, file.cites());
                let stored = final(self).files@[file.id@];
                &&& r matches Ok(node) && *node == stored
                &&& final(self).arrow() == old(self).arrow().push(file.id@)
                &&& final(self).files@ == old(self).files@.insert(file.id@, stored)
                &&& stored.id == file.id
                &&& stored.author == file.author
                &&& stored.payload == file.payload
                &&& stored.stake == file.stake
                &&& stored.cites() == known
                &&& stored.intrinsic_reward == reward
                &&& stored.price == reward
                &&& final(self).rev_view() == add_child(old(self).rev_view(), known, file.id@)
            },
    {
        let mut file = file;
        let id = file.id.clone();
        if self.files.contains_key(id.as_str()) {
            let mut msg = String::from_str("Spacetime Paradox: Node ID ");
            msg.append(id.as_str());
            msg.append(" already exists.");
            return Err(msg);
        }
        let ghost old_files = self.files@;
        let ghost old_rev = self.rev_view();
        let ghost cs = file.cites();

        // Causality: only citations of nodes already on the tape are kept.
        let mut valid: Vec<String> = Vec::new();
        let mut i: usize = 0;
        while i < file.citations.len()
            invariant
                i <= file.citations@.len(),
                cs == file.cites(),
                self.files@ == old_files,
                ids(valid@) == known_citations(old_files, cs.subrange(0, i as int)),
            decreases file.citations@.len() - i,
        {
            let ghost before = valid@;
            if self.files.contains_key(file.citations[i].as_str()) {
                valid.push(file.citations[i].clone());
                proof { lemma_ids_push(before, file.citations@[i as int]); }
            }
            proof {
                assert(cs.subrange(0, i + 1) =~= cs.subrange(0, i as int).push(cs[i as int]));
                lemma_known_citations_push(old_files, cs.subrange(0, i as int), cs[i as int]);
            }
            i = i + 1;
        }
        assert(cs.subrange(0, cs.len() as int) =~= cs);
        let ghost known = ids(valid@);
        file.citations = valid;
        file.intrinsic_reward = reward;
        file.price = reward;

        // Record the new node as a child of each node it cites.
        let mut k: usize = 0;
        while k < file.citations.len()
            invariant
                k <= file.citations@.len(),
                known == file.cites(),
                self.files@ == old_files,
                self.arrow() == old(self).arrow(),
                self.rev_view() == add_child(old_rev, known.subrange(0, k as int), id@),
            decreases file.citations@.len() - k,
        {
            let parent = &file.citations[k];
            let ghost before = self.rev_view();
            let mut children: Vec<String> = match self.reverse_citations.get(parent.as_str()) {
                Some(v) => clone_strings(v),
                None => Vec::new(),
            };
            let ghost prior_v = children@;
            assert(ids(prior_v) == (if before.contains_key(parent@) { before[parent@] } else { seq![] })) by {
                if !before.contains_key(parent@) {
                    assert(ids(prior_v) =~= Seq::<Seq<char>>::empty());
                }
            }
            children.push(id.clone());
            proof { lemma_ids_push(prior_v, id); }
            let ghost kids = children@;
            self.reverse_citations.insert(parent.clone(), children);
            proof {
                assert(self.rev_view() =~= before.insert(parent@, ids(kids)));
                assert(known.subrange(0, k + 1) =~= known.subrange(0, k as int).push(known[k as int]));
                lemma_add_child_push(old_rev, known.subrange(0, k as int), known[k as int], id@);
            }
            k = k + 1;
        }
        assert(known.subrange(0, known.len() as int) =~= known);

        let ghost stored = file;
        self.files.insert(id.clone(), file);
        self.time_arrow.push(id.clone());
        proof {
            lemma_ids_push(old(self).time_arrow@, id);
            let arrow = self.arrow();
            let old_arrow = old(self).arrow();
            assert(old_arrow =~= arrow.drop_last());
            // no duplicates
            assert(!old_arrow.contains(id@));
            assert forall|a: int, b: int| 0 <= a < arrow.len() && 0 <= b < arrow.len() && a != b implies arrow[a] != arrow[b] by {
                if a < old_arrow.len() && b < old_arrow.len() {
                    assert(arrow[a] == old_arrow[a] && arrow[b] == old_arrow[b]);
                } else if a < old_arrow.len() {
                    assert(arrow[a] == old_arrow[a]);
                    assert(old_arrow.contains(arrow[a]));
                } else {
                    assert(arrow[b] == old_arrow[b]);
                    assert(old_arrow.contains(arrow[b]));
                }
            }
            // domain
            assert forall|k: Seq<char>| #[trigger] self.files@.contains_key(k) <==> arrow.contains(k) by {
                if k == id@ {
                    assert(arrow[arrow.len() - 1] == k);
                } else if old_arrow.contains(k) {
                    let j = choose|j: int| 0 <= j < old_arrow.len() && old_arrow[j] == k;
                    assert(arrow[j] == k);
                } else if arrow.contains(k) {
                    let j = choose|j: int| 0 <= j < arrow.len() && arrow[j] == k;
                    assert(old_arrow[j] == k);
                }
            }
            // causality
            lemma_known_citations_known(old_files, cs);
            assert forall|i: int, c: Seq<char>|
                0 <= i < arrow.len() && #[trigger] self.files@[arrow[i]].cites().contains(c)
                implies arrow.subrange(0, i).contains(c) by {
                if i < old_arrow.len() {
                    assert(arrow[i] == old_arrow[i]);
                    assert(old_arrow.contains(old_arrow[i]));
                    assert(old_arrow[i] != id@);
                    assert(arrow.subrange(0, i) =~= old_arrow.subrange(0, i));
                } else {
                    assert(arrow[i] == id@);
                    assert(old_files.contains_key(c));
                    assert(old_arrow.contains(c));
                    assert(arrow.subrange(0, i) =~= old_arrow);
                }
            }
            // reverse index
            assert forall|i: int| 0 <= i < old_arrow.len() implies old_files[#[trigger] old_arrow[i]] == self.files@[old_arrow[i]] by {
                assert(old_arrow.contains(old_arrow[i]));
            }
            lemma_rev_of_agree(old_files, self.files@, old_arrow);
            assert(self.files@[arrow.last()] == stored);
        }
        Ok(self.files.get(id.as_str()).unwrap())
    }
}

// ---------------------------------------------------------------------------
// Golden path
// ---------------------------------------------------------------------------

/// Following first citations from `id`, for at most `fuel` nodes.
pub open spec fn chain_from<P>(files: Files<P>, id: Seq<char>, fuel: nat) -> Seq<Seq<char>>
    decreases fuel,
{
    if fuel == 0 || !files.contains_key(id) {
        seq![]
    } else if files[id].cites().len() == 0 {
        seq![id]
    } else {
        seq![id] + chain_from(files, files[id].cites()[0], (fuel - 1) as nat)
    }
}

/// The position of `x` on the arrow `a`.
pub open spec fn pos(a: Seq<Seq<char>>, x: Seq<char>) -> int {
    choose|i: int| 0 <= i < a.len() && a[i] == x
}

impl<P> Tape<P> {
    /// The path from `id` back to a root along first citations.
    pub open spec fn golden_path(&self, id: Seq<char>) -> Seq<Seq<char>> {
        chain_from(self.files@, id, self.arrow().len())
    }

    /// Number of citation steps from `id` back to its root (0 when `id` is
    /// not on the tape).
    pub open spec fn depth(&self, id: Seq<char>) -> nat {
        let g = self.golden_path(id);
        if g.len() == 0 { 0 } else { (g.len() - 1) as nat }
    }
}

proof fn lemma_pos<P>(t: Tape<P>, x: Seq<char>)
    requires
        t.wf(),
        t.files@.contains_key(x),
    ensures
        0 <= pos(t.arrow(), x) < t.arrow().len(),
        t.arrow()[pos(t.arrow(), x)] == x,
        forall|j: int| 0 <= j < t.arrow().len() && t.arrow()[j] == x ==> j == pos(t.arrow(), x),
{
    assert(t.arrow().contains(x));
}

/// The first citation of a node sits before it on the arrow.
proof fn lemma_first_citation_earlier<P>(t: Tape<P>, x: Seq<char>)
    requires
        t.wf(),
        t.files@.contains_key(x),
        t.files@[x].cites().len() > 0,
    ensures
        t.files@.contains_key(t.files@[x].cites()[0]),
        pos(t.arrow(), t.files@[x].cites()[0]) < pos(t.arrow(), x),
{
    lemma_pos(t, x);
    let i = pos(t.arrow(), x);
    let c = t.files@[x].cites()[0];
    assert(t.files@[t.arrow()[i]].cites().contains(c));
    assert(t.arrow().subrange(0, i).contains(c));
    let j = choose|j: int| 0 <= j < i && t.arrow().subrange(0, i)[j] == c;
    assert(t.arrow()[j] == c);
    assert(t.arrow().contains(c));
    lemma_pos(t, c);
}

/// Any fuel beyond the position of `id` gives the same path.
proof fn lemma_chain_fuel<P>(t: Tape<P>, id: Seq<char>, f: nat)
    requires
        t.wf(),
        t.files@.contains_key(id),
        f > pos(t.arrow(), id),
    ensures
        chain_from(t.files@, id, f) == chain_from(t.files@, id, (pos(t.arrow(), id) + 1) as nat),
    decreases pos(t.arrow(), id),
{
    lemma_pos(t, id);
    if t.files@[id].cites().len() > 0 {
        let c = t.files@[id].cites()[0];
        lemma_first_citation_earlier(t, id);
        lemma_chain_fuel(t, c, (f - 1) as nat);
        lemma_chain_fuel(t, c, pos(t.arrow(), id) as nat);
    }
}

/// Shape of the path that starts at `id` with enough fuel.
proof fn lemma_chain_shape<P>(t: Tape<P>, id: Seq<char>)
    requires
        t.wf(),
        t.files@.contains_key(id),
    ensures
        ({
            let g = chain_from(t.files@, id, (pos(t.arrow(), id) + 1) as nat);
            &&& g.len() > 0
            &&& g[0] == id
            &&& forall|k: int| 0 <= k < g.len() ==> #[trigger] t.files@.contains_key(g[k])
                && pos(t.arrow(), g[k]) <= pos(t.arrow(), id)
                && (k > 0 ==> pos(t.arrow(), g[k]) < pos(t.arrow(), id))
            &&& forall|k: int| 0 <= k < g.len() - 1 ==> t.files@[#[trigger] g[k]].cites().len() > 0
                && g[k + 1] == t.files@[g[k]].cites()[0]
            &&& t.files@[g.last()].cites().len() == 0
            &&& forall|a: int, b: int| 0 <= a < b < g.len() ==> pos(t.arrow(), #[trigger] g[b]) < pos(t.arrow(), #[trigger] g[a])
        }),
    decreases pos(t.arrow(), id),
{
    lemma_pos(t, id);
    let i = pos(t.arrow(), id);
    let g = chain_from(t.files@, id, (i + 1) as nat);
    if t.files@[id].cites().len() > 0 {
        let c = t.files@[id].cites()[0];
        lemma_first_citation_earlier(t, id);
        lemma_chain_fuel(t, c, i as nat);
        lemma_chain_shape(t, c);
        let h = chain_from(t.files@, c, (pos(t.arrow(), c) + 1) as nat);
        assert(g == seq![id] + h);
        assert forall|k: int| 0 <= k < g.len() implies #[trigger] t.files@.contains_key(g[k])
            && pos(t.arrow(), g[k]) <= i && (k > 0 ==> pos(t.arrow(), g[k]) < i) by {
            if k > 0 {
                assert(g[k] == h[k - 1]);
            }
        }
        assert forall|k: int| 0 <= k < g.len() - 1 implies t.files@[#[trigger] g[k]].cites().len() > 0
            && g[k + 1] == t.files@[g[k]].cites()[0] by {
            if k > 0 {
                assert(g[k] == h[k - 1]);
                assert(g[k + 1] == h[k]);
            } else {
                assert(g[1] == h[0]);
            }
        }
        assert(g.last() == h.last());
        assert forall|a: int, b: int| 0 <= a < b < g.len() implies pos(t.arrow(), #[trigger] g[b]) < pos(t.arrow(), #[trigger] g[a]) by {
            assert(g[b] == h[b - 1]);
            if a > 0 {
                assert(g[a] == h[a - 1]);
            } else {
                assert(h.len() > 0 && t.files@.contains_key(h[b - 1]));
            }
        }
    } else {
        assert(g == seq![id]);
    }
}

/// The golden path from any id is a chain along first citations: it starts
/// at `id` (empty exactly when `id` is not on the tape), every node on it is
/// on the tape, each node is followed by its first citation, no node occurs
/// twice, and it ends at a root, a node that cites nothing.
pub proof fn golden_path_is_chain<P>(t: Tape<P>, id: Seq<char>)
    requires
        t.wf(),
    ensures
        ({
            let g = t.golden_path(id);
            &&& (g.len() == 0 <==> !t.files@.contains_key(id))
            &&& g.len() > 0 ==> g[0] == id
            &&& forall|k: int| 0 <= k < g.len() ==> #[trigger] t.files@.contains_key(g[k])
            &&& forall|k: int| 0 <= k < g.len() - 1 ==> t.files@[#[trigger] g[k]].cites().len() > 0
                && g[k + 1] == t.files@[g[k]].cites()[0]
            &&& g.len() > 0 ==> t.files@[g.last()].cites().len() == 0
            &&& g.no_duplicates()
        }),
{
    if t.files@.contains_key(id) {
        lemma_pos(t, id);
        lemma_chain_fuel(t, id, t.arrow().len());
        lemma_chain_shape(t, id);
        let g = t.golden_path(id);
        assert forall|a: int, b: int| 0 <= a < g.len() && 0 <= b < g.len() && a != b implies g[a] != g[b] by {
            if a < b {
                assert(pos(t.arrow(), g[b]) < pos(t.arrow(), g[a]));
            } else {
                assert(pos(t.arrow(), g[a]) < pos(t.arrow(), g[b]));
            }
        }
    } else {
        assert(t.golden_path(id) =~= Seq::<Seq<char>>::empty());
    }
}

impl<P> Tape<P> {
    /// Traces from `omega_node_id` back along first citations to a root: the
    /// golden path.
    pub fn trace_golden_path(&self, omega_node_id: &str) -> (path: Vec<String>)
        requires
            self.wf(),
        ensures
            ids(path@) == self.golden_path(omega_node_id@),
    {
        let mut path: Vec<String> = Vec::new();
        let mut current: String = omega_node_id.to_owned();
        let ghost mut fuel: nat = self.arrow().len();
        proof {
            if self.files@.contains_key(current@) {
                lemma_pos(*self, current@);
            }
            assert(ids(path@) + chain_from(self.files@, current@, fuel) =~= self.golden_path(omega_node_id@));
        }
        loop
            invariant
                self.wf(),
                ids(path@) + chain_from(self.files@, current@, fuel) == self.golden_path(omega_node_id@),
                self.files@.contains_key(current@) ==> pos(self.arrow(), current@) < fuel,
            decreases fuel,
        {
            match self.files.get(current.as_str()) {
                None => {
                    assert(ids(path@) =~= ids(path@) + chain_from(self.files@, current@, fuel));
                    return path;
                },
                Some(node) => {
                    let ghost i = pos(self.arrow(), current@);
                    proof {
                        lemma_pos(*self, current@);
                        lemma_chain_fuel(*self, current@, fuel);
                    }
                    let ghost before = path@;
                    path.push(current.clone());
                    proof { lemma_ids_push(before, current); }
                    if node.citations.len() == 0 {
                        assert(ids(path@) =~= ids(before) + chain_from(self.files@, current@, fuel));
                        return path;
                    }
                    proof { lemma_first_citation_earlier(*self, current@); }
                    let ghost prev = current@;
                    current = node.citations[0].clone();
                    proof {
                        assert(current@ == self.files@[prev].cites()[0]);
                        assert(ids(path@) + chain_from(self.files@, current@, i as nat) =~= ids(before)
                            + chain_from(self.files@, prev, (i + 1) as nat));
                        fuel = i as nat;
                    }
                },
            }
        }
    }
}

/// Number of citation steps from `node_id` back to its root (0 when the
/// node is not on the tape).
pub fn chain_depth<P>(node_id: &str, tape: &Tape<P>) -> (depth: usize)
    requires
        tape.wf(),
    ensures
        depth == tape.depth(node_id@),
{
    let mut depth: usize = 0;
    let n = tape.time_arrow.len();
    let mut cur: String = node_id.to_owned();
    let ghost mut fuel: nat = tape.arrow().len();
    proof {
        assert(tape.arrow().len() == n);
        if tape.files@.contains_key(cur@) {
            lemma_pos(*tape, cur@);
        }
    }
    loop
        invariant
            tape.wf(),
            depth <= tape.arrow().len(),
            depth + chain_from(tape.files@, cur@, fuel).len() == tape.golden_path(node_id@).len(),
            depth > 0 ==> tape.files@.contains_key(cur@),
            tape.files@.contains_key(cur@) ==> pos(tape.arrow(), cur@) < fuel,
            fuel + depth <= tape.arrow().len(),
            tape.arrow().len() <= usize::MAX,
        decreases fuel,
    {
        match tape.files.get(cur.as_str()) {
            None => {
                return depth;
            },
            Some(node) => {
                let ghost i = pos(tape.arrow(), cur@);
                proof {
                    lemma_pos(*tape, cur@);
                    lemma_chain_fuel(*tape, cur@, fuel);
                }
                if node.citations.len() == 0 {
                    return depth;
                }
                proof { lemma_first_citation_earlier(*tape, cur@); }
                let ghost prev = cur@;
                cur = node.citations[0].clone();
                proof {
                    assert(cur@ == tape.files@[prev].cites()[0]);
                    fuel = i as nat;
                }
                depth = depth + 1;
            },
        }
    }
}

// ---------------------------------------------------------------------------
// Updates that keep the shape of the DAG, and copies
// ---------------------------------------------------------------------------

proof fn lemma_add_child_keys(rev: Reverse, parents: Seq<Seq<char>>, child: Seq<char>)
    ensures
        forall|k: Seq<char>| #[trigger] add_child(rev, parents, child).contains_key(k) <==> rev.contains_key(k) || parents.contains(k),
    decreases parents.len(),
{
    if parents.len() > 0 {
        let ps = parents.drop_last();
        let p = parents.last();
        lemma_add_child_keys(rev, ps, child);
        let r = add_child(rev, ps, child);
        assert(add_child(rev, parents, child) == r.insert(p, (if r.contains_key(p) { r[p] } else { seq![] }).push(child)));
        assert forall|k: Seq<char>| #[trigger] add_child(rev, parents, child).contains_key(k) <==> rev.contains_key(k) || parents.contains(k) by {
            if k == p {
                assert(parents[parents.len() - 1] == k);
            } else {
                if ps.contains(k) {
                    let j = choose|j: int| 0 <= j < ps.len() && ps[j] == k;
                    assert(parents[j] == k);
                }
                if parents.contains(k) {
                    let j = choose|j: int| 0 <= j < parents.len() && parents[j] == k;
                    assert(j != parents.len() - 1);
                    assert(ps[j] == k);
                }
            }
        }
    }
}

proof fn lemma_rev_of_keys<P>(files: Files<P>, arrow: Seq<Seq<char>>)
    ensures
        forall|k: Seq<char>| #[trigger] rev_of(files, arrow).contains_key(k) ==> exists|i: int|
            0 <= i < arrow.len() && #[trigger] files[arrow[i]].cites().contains(k),
    decreases arrow.len(),
{
    if arrow.len() > 0 {
        let a = arrow.drop_last();
        lemma_rev_of_keys(files, a);
        lemma_add_child_keys(rev_of(files, a), files[arrow.last()].cites(), arrow.last());
        assert forall|k: Seq<char>| #[trigger] rev_of(files, arrow).contains_key(k) implies exists|i: int|
            0 <= i < arrow.len() && #[trigger] files[arrow[i]].cites().contains(k) by {
            if rev_of(files, a).contains_key(k) {
                let i = choose|i: int| 0 <= i < a.len() && #[trigger] files[a[i]].cites().contains(k);
                assert(arrow[i] == a[i]);
            } else {
                assert(arrow[arrow.len() - 1] == arrow.last());
            }
        }
    }
}

/// Every node that has children listed is on the tape.
proof fn lemma_rev_keys_on_tape<P>(t: Tape<P>)
    requires
        t.wf(),
    ensures
        forall|k: Seq<char>| #[trigger] t.rev_view().contains_key(k) ==> t.files@.contains_key(k),
{
    lemma_rev_of_keys(t.files@, t.arrow());
    assert forall|k: Seq<char>| #[trigger] t.rev_view().contains_key(k) implies t.files@.contains_key(k) by {
        let i = choose|i: int| 0 <= i < t.arrow().len() && #[trigger] t.files@[t.arrow()[i]].cites().contains(k);
        assert(t.arrow().subrange(0, i).contains(k));
        let j = choose|j: int| 0 <= j < i && t.arrow().subrange(0, i)[j] == k;
        assert(t.arrow()[j] == k);
    }
}

impl<P> Tape<P> {
    /// The length of the longest citation chain on the tape, and the first
    /// node (in time order) at its end; the leaf is empty when no chain has
    /// a step.
    pub fn deepest_chain(&self) -> (r: (usize, String))
        requires
            self.wf(),
        ensures
            forall|j: int| 0 <= j < self.arrow().len() ==> #[trigger] self.depth(self.arrow()[j]) <= r.0,
            r.0 == 0 ==> r.1@ == Seq::<char>::empty(),
            r.0 > 0 ==> exists|i: int| #![trigger self.arrow()[i]]
                0 <= i < self.arrow().len()
                && self.arrow()[i] == r.1@
                && self.depth(self.arrow()[i]) == r.0
                && forall|j: int| 0 <= j < i ==> #[trigger] self.depth(self.arrow()[j]) < r.0,
    {
        let mut max_depth: usize = 0;
        let mut leaf = String::new();
        let ghost mut at: int = 0;
        let mut i: usize = 0;
        while i < self.time_arrow.len()
            invariant
                self.wf(),
                i <= self.arrow().len(),
                self.arrow().len() == self.time_arrow@.len(),
                forall|j: int| 0 <= j < i ==> #[trigger] self.depth(self.arrow()[j]) <= max_depth,
                max_depth == 0 ==> leaf@ == Seq::<char>::empty(),
                max_depth > 0 ==> {
                    &&& 0 <= at < i
                    &&& self.arrow()[at] == leaf@
                    &&& self.depth(self.arrow()[at]) == max_depth
                    &&& forall|j: int| 0 <= j < at ==> #[trigger] self.depth(self.arrow()[j]) < max_depth
                },
            decreases self.time_arrow@.len() - i,
        {
            let id = &self.time_arrow[i];
            assert(self.arrow()[i as int] == id@);
            let d = chain_depth(id.as_str(), self);
            if d > max_depth {
                max_depth = d;
                leaf = id.clone();
                proof { at = i as int; }
            }
            i = i + 1;
        }
        (max_depth, leaf)
    }
}

impl<P> Tape<P> {
    /// Whether some node's payload contains `pattern` (an `[OMEGA]` marker,
    /// say).
    pub fn any_payload_contains(&self, pattern: &str) -> (found: bool)
        requires
            self.wf(),
        ensures
            found == exists|k: Seq<char>| #[trigger] self.files@.contains_key(k)
                && contains(self.files@[k].payload@, pattern@),
    {
        let mut i: usize = 0;
        while i < self.time_arrow.len()
            invariant
                self.wf(),
                i <= self.arrow().len(),
                self.arrow().len() == self.time_arrow@.len(),
                forall|j: int| 0 <= j < i ==> !contains(#[trigger] self.files@[self.arrow()[j]].payload@, pattern@),
            decreases self.time_arrow@.len() - i,
        {
            let id = &self.time_arrow[i];
            assert(self.arrow()[i as int] == id@);
            assert(self.arrow().contains(id@));
            let node = self.files.get(id.as_str()).unwrap();
            if str_contains(node.payload.as_str(), pattern) {
                assert(self.files@.contains_key(id@));
                return true;
            }
            i = i + 1;
        }
        assert forall|k: Seq<char>| #[trigger] self.files@.contains_key(k)
            implies !contains(self.files@[k].payload@, pattern@) by {
            assert(self.arrow().contains(k));
            let j = choose|j: int| 0 <= j < self.arrow().len() && self.arrow()[j] == k;
            assert(!contains(self.files@[self.arrow()[j]].payload@, pattern@));
        }
        false
    }
}

impl<P: Copy> Clone for File<P> {
    fn clone(&self) -> (r: Self)
        ensures
            r.same_as(*self),
    {
        self.duplicate()
    }
}

impl<P: Copy> Default for Tape<P> {
    fn default() -> (t: Self)
        ensures
            t.wf(),
            t.files@ == Map::<Seq<char>, File<P>>::empty(),
            t.arrow() == Seq::<Seq<char>>::empty(),
    {
        Tape::new()
    }
}

impl<P: Copy> Tape<P> {
    /// Sets the price of the node `node_id`, if it is on the tape; nothing
    /// else changes.
    pub fn set_price(&mut self, node_id: &str, price: P)
        requires
            old(self).wf(),
        ensures
            final(self).wf(),
            final(self).arrow() == old(self).arrow(),
            final(self).rev_view() == old(self).rev_view(),
            old(self).files@.contains_key(node_id@) ==> ({
                let f = old(self).files@[node_id@];
                let g = final(self).files@[node_id@];
                &&& final(self).files@ == old(self).files@.insert(node_id@, g)
                &&& g.id == f.id && g.author == f.author && g.payload == f.payload
                &&& g.citations@ == f.citations@ && g.stake == f.stake
                &&& g.intrinsic_reward == f.intrinsic_reward
                &&& g.price == price
            }),
            !old(self).files@.contains_key(node_id@) ==> final(self).files@ == old(self).files@,
    {
        let updated = match self.files.get(node_id) {
            Some(f) => {
                let mut g = f.duplicate();
                g.price = price;
                Some(g)
            },
            None => None,
        };
        match updated {
            Some(g) => {
                let ghost old_files = self.files@;
                let key = g.id.clone();
                self.files.insert(key, g);
                proof {
                    let arrow = self.arrow();
                    assert(self.files@ == old_files.insert(node_id@, self.files@[node_id@]));
                    assert forall|k: Seq<char>| #[trigger] self.files@.contains_key(k) <==> arrow.contains(k) by {
                        if k == node_id@ {
                            assert(old_files.contains_key(k));
                        }
                    }
                    assert forall|i: int| 0 <= i < arrow.len() implies old_files[#[trigger] arrow[i]].cites() == self.files@[arrow[i]].cites() by {
                    }
                    assert forall|i: int| 0 <= i < arrow.len() implies old_files[#[trigger] arrow[i]] == old_files[arrow[i]] by {
                    }
                    lemma_rev_of_cites_agree(old_files, self.files@, arrow);
                }
            },
            None => {},
        }
    }

    /// An independent copy of the tape.
    pub fn snapshot(&self) -> (r: Tape<P>)
        requires
            self.wf(),
        ensures
            r.wf(),
            r.arrow() == self.arrow(),
            r.rev_view() == self.rev_view(),
            forall|k: Seq<char>| #[trigger] r.files@.contains_key(k) <==> self.files@.contains_key(k),
            forall|k: Seq<char>| #[trigger] self.files@.contains_key(k) ==> r.files@[k].same_as(self.files@[k]),
    {
        let mut files: StringHashMap<File<P>> = StringHashMap::new();
        let mut rev: StringHashMap<Vec<String>> = StringHashMap::new();
        let n = self.time_arrow.len();
        let mut i: usize = 0;
        proof { lemma_rev_keys_on_tape(*self); }
        while i < n
            invariant
                self.wf(),
                n == self.time_arrow@.len(),
                i <= n,
                forall|k: Seq<char>| #[trigger] files@.contains_key(k) <==> self.arrow().subrange(0, i as int).contains(k),
                forall|k: Seq<char>| #[trigger] files@.contains_key(k) ==> files@[k].same_as(self.files@[k]),
                forall|k: Seq<char>| #[trigger] rev@.contains_key(k) <==> (self.arrow().subrange(0, i as int).contains(k) && self.reverse_citations@.contains_key(k)),
                forall|k: Seq<char>| #[trigger] rev@.contains_key(k) ==> rev@[k]@ == self.reverse_citations@[k]@,
            decreases n - i,
        {
            let id = &self.time_arrow[i];
            let ghost prefix = self.arrow().subrange(0, i as int);
            assert(self.arrow()[i as int] == id@);
            assert(self.arrow().subrange(0, i + 1) =~= prefix.push(id@));
            assert(self.arrow().contains(id@));
            let f = self.files.get(id.as_str()).unwrap().duplicate();
            files.insert(id.clone(), f);
            match self.reverse_citations.get(id.as_str()) {
                Some(v) => {
                    rev.insert(id.clone(), clone_strings(v));
                },
                None => {},
            }
            proof {
                let next = self.arrow().subrange(0, i + 1);
                assert forall|k: Seq<char>| #[trigger] files@.contains_key(k) <==> next.contains(k) by {
                    if k == id@ {
                        assert(next[i as int] == k);
                    } else if next.contains(k) {
                        let j = choose|j: int| 0 <= j < next.len() && next[j] == k;
                        assert(prefix[j] == k);
                    } else if prefix.contains(k) {
                        let j = choose|j: int| 0 <= j < prefix.len() && prefix[j] == k;
                        assert(next[j] == k);
                    }
                }
                assert forall|k: Seq<char>| #[trigger] rev@.contains_key(k) <==> (next.contains(k) && self.reverse_citations@.contains_key(k)) by {
                    if k == id@ {
                        assert(next[i as int] == k);
                    } else if next.contains(k) {
                        let j = choose|j: int| 0 <= j < next.len() && next[j] == k;
                        assert(prefix[j] == k);
                    } else if prefix.contains(k) {
                        let j = choose|j: int| 0 <= j < prefix.len() && prefix[j] == k;
                        assert(next[j] == k);
                    }
                }
            }
            i = i + 1;
        }
        let r = Tape { files, reverse_citations: rev, time_arrow: clone_strings(&self.time_arrow) };
        proof {
            assert(self.arrow().subrange(0, n as int) =~= self.arrow());
            assert(r.arrow() == self.arrow());
            assert(r.rev_view() =~= self.rev_view());
            assert forall|k: Seq<char>| #[trigger] r.files@.contains_key(k) <==> self.files@.contains_key(k) by {
                assert(self.arrow().subrange(0, n as int).contains(k) <==> self.arrow().contains(k));
            }
            assert forall|j: int| 0 <= j < self.arrow().len() implies self.files@[#[trigger] self.arrow()[j]].cites() == r.files@[self.arrow()[j]].cites() by {
                let k = self.arrow()[j];
                assert(self.arrow().contains(k));
                assert(r.files@.contains_key(k));
                assert(r.files@[k].citations@ == self.files@[k].citations@);
            }
            lemma_rev_of_cites_agree(self.files@, r.files@, self.arrow());
            assert forall|k: Seq<char>| #[trigger] r.files@.contains_key(k) implies r.files@[k].id@ == k by {
                assert(self.files@.contains_key(k));
            }
            assert forall|k: Seq<char>| #[trigger] self.files@.contains_key(k) implies r.files@[k].same_as(self.files@[k]) by {
                assert(r.files@.contains_key(k));
            }
            assert forall|ii: int, c: Seq<char>|
                0 <= ii < r.arrow().len() && #[trigger] r.files@[r.arrow()[ii]].cites().contains(c)
                implies r.arrow().subrange(0, ii).contains(c) by {
                let k = self.arrow()[ii];
                assert(self.arrow().contains(k));
                assert(r.files@.contains_key(k));
                assert(r.files@[k].citations@ == self.files@[k].citations@);
                assert(self.files@[self.arrow()[ii]].cites().contains(c));
            }
        }
        r
    }
}

/// `rev_of` only looks at the citations of the nodes on the arrow.
proof fn lemma_rev_of_cites_agree<P>(f1: Files<P>, f2: Files<P>, arrow: Seq<Seq<char>>)
    requires
        forall|i: int| 0 <= i < arrow.len() ==> f1[#[trigger] arrow[i]].cites() == f2[arrow[i]].cites(),
    ensures
        rev_of(f1, arrow) == rev_of(f2, arrow),
    decreases arrow.len(),
{
    if arrow.len() > 0 {
        let a = arrow.drop_last();
        assert forall|i: int| 0 <= i < a.len() implies f1[#[trigger] a[i]].cites() == f2[a[i]].cites() by {
            assert(a[i] == arrow[i]);
        }
        lemma_rev_of_cites_agree(f1, f2, a);
        assert(f1[arrow.last()].cites() == f2[arrow[arrow.len() - 1]].cites());
    }
}

/// `c` is listed among the citing nodes of `p`.
pub open spec fn lists(rev: Reverse, p: Seq<char>, c: Seq<char>) -> bool {
    rev.contains_key(p) && rev[p].contains(c)
}

proof fn lemma_add_child_lists(rev: Reverse, ps: Seq<Seq<char>>, child: Seq<char>, p: Seq<char>, c: Seq<char>)
    ensures
        lists(add_child(rev, ps, child), p, c) <==> (lists(rev, p, c) || (c == child && ps.contains(p))),
    decreases ps.len(),
{
    if ps.len() > 0 {
        let d = ps.drop_last();
        let q = ps.last();
        lemma_add_child_lists(rev, d, child, p, c);
        let r = add_child(rev, d, child);
        let base = if r.contains_key(q) { r[q] } else { seq![] };
        assert(ps == d.push(q));
        vstd::seq_lib::lemma_seq_contains_after_push(d, q, p);
        vstd::seq_lib::lemma_seq_contains_after_push(base, child, c);
    }
}

proof fn lemma_rev_of_lists<P>(files: Files<P>, arrow: Seq<Seq<char>>, p: Seq<char>, c: Seq<char>)
    ensures
        lists(rev_of(files, arrow), p, c) <==> (arrow.contains(c) && files[c].cites().contains(p)),
    decreases arrow.len(),
{
    if arrow.len() > 0 {
        let d = arrow.drop_last();
        let last = arrow.last();
        lemma_rev_of_lists(files, d, p, c);
        lemma_add_child_lists(rev_of(files, d), files[last].cites(), last, p, c);
        assert(arrow == d.push(last));
        vstd::seq_lib::lemma_seq_contains_after_push(d, last, c);
    }
}

/// The reverse-citation index is exact: `c` is listed under `p` exactly
/// when `c` is a node on the tape that cites `p`.
pub proof fn reverse_index_is_exact<P>(t: Tape<P>, p: Seq<char>, c: Seq<char>)
    requires
        t.wf(),
    ensures
        lists(t.rev_view(), p, c) <==> (t.files@.contains_key(c) && t.files@[c].cites().contains(p)),
{
    lemma_rev_of_lists(t.files@, t.arrow(), p, c);
}

/// Chains only read the nodes and their first citations.
proof fn lemma_chain_same_links<P>(files1: Files<P>, files2: Files<P>, x: Seq<char>, f: nat)
    requires
        forall|k: Seq<char>| #[trigger] files1.contains_key(k) <==> files2.contains_key(k),
        forall|k: Seq<char>| #[trigger] files1.contains_key(k) ==> files1[k].cites() == files2[k].cites(),
    ensures
        chain_from(files2, x, f) == chain_from(files1, x, f),
    decreases f,
{
    if f > 0 && files1.contains_key(x) && files1[x].cites().len() > 0 {
        lemma_chain_same_links(files1, files2, files1[x].cites()[0], (f - 1) as nat);
    }
}

/// Repricing (or copying) the tape moves no chain: two tapes with the same
/// time arrow, the same nodes and the same citations have the same golden
/// paths.
pub proof fn same_links_same_golden_paths<P>(t1: Tape<P>, t2: Tape<P>, id: Seq<char>)
    requires
        t2.arrow() == t1.arrow(),
        forall|k: Seq<char>| #[trigger] t1.files@.contains_key(k) <==> t2.files@.contains_key(k),
        forall|k: Seq<char>| #[trigger] t1.files@.contains_key(k) ==> t1.files@[k].cites() == t2.files@[k].cites(),
    ensures
        t2.golden_path(id) == t1.golden_path(id),
{
    lemma_chain_same_links(t1.files@, t2.files@, id, t1.arrow().len());
}

/// Chains through old nodes never reach a node added after them.
proof fn lemma_chain_unchanged<P>(t1: Tape<P>, files2: Files<P>, new_id: Seq<char>, stored: File<P>, x: Seq<char>, f: nat)
    requires
        t1.wf(),
        !t1.files@.contains_key(new_id),
        files2 == t1.files@.insert(new_id, stored),
        t1.files@.contains_key(x),
    ensures
        chain_from(files2, x, f) == chain_from(t1.files@, x, f),
    decreases f,
{
    if f > 0 {
        assert(files2[x] == t1.files@[x]);
        if t1.files@[x].cites().len() > 0 {
            lemma_first_citation_earlier(t1, x);
            lemma_chain_unchanged(t1, files2, new_id, stored, t1.files@[x].cites()[0], (f - 1) as nat);
        }
    }
}

/// Appending is append-only for history: adding a node leaves the golden
/// path of every node already on the tape as it was.
pub proof fn append_keeps_golden_paths<P>(t1: Tape<P>, t2: Tape<P>, new_id: Seq<char>, stored: File<P>, id: Seq<char>)
    requires
        t1.wf(),
        t2.wf(),
        !t1.files@.contains_key(new_id),
        t2.files@ == t1.files@.insert(new_id, stored),
        t2.arrow() == t1.arrow().push(new_id),
        t1.files@.contains_key(id),
    ensures
        t2.golden_path(id) == t1.golden_path(id),
{
    let n = t1.arrow().len();
    lemma_chain_unchanged(t1, t2.files@, new_id, stored, id, n + 1);
    lemma_pos(t1, id);
    lemma_chain_fuel(t1, id, n + 1);
    lemma_chain_fuel(t1, id, n);
}

/// No node of a well-formed tape cites itself, and every citation names a
/// node that is on the tape and was appended earlier.
pub proof fn citations_point_back<P>(t: Tape<P>, k: Seq<char>, c: Seq<char>)
    requires
        t.wf(),
        t.files@.contains_key(k),
        t.files@[k].cites().contains(c),
    ensures
        c != k,
        t.files@.contains_key(c),
        pos(t.arrow(), c) < pos(t.arrow(), k),
{
    lemma_pos(t, k);
    let i = pos(t.arrow(), k);
    assert(t.files@[t.arrow()[i]].cites().contains(c));
    assert(t.arrow().subrange(0, i).contains(c));
    let j = choose|j: int| 0 <= j < i && t.arrow().subrange(0, i)[j] == c;
    assert(t.arrow()[j] == c);
    assert(t.arrow().contains(c));
    lemma_pos(t, c);
}
} // verus!
