use vstd::prelude::*;

use crate::text::{
    chars_of, is_space, lemma_trim_idempotent, same_chars, strip_end, strip_end_chars, trim,
    trim_chars,
};

verus! {

/// The map that a list of definitions gives, a later definition of a name replacing an earlier one.
pub open spec fn map_of(entries: Seq<(Seq<char>, u32)>) -> Map<Seq<char>, u32>
    decreases entries.len(),
{
    if entries.len() == 0 {
        Map::empty()
    } else {
        map_of(entries.drop_last()).insert(entries.last().0, entries.last().1)
    }
}

/// Label names and their addresses.
pub struct SymbolTable {
    entries: Vec<(Vec<char>, u32)>,
}

impl SymbolTable {
    /// The definitions made so far, oldest first.
    pub closed spec fn definitions(&self) -> Seq<(Seq<char>, u32)> {
        self.entries@.map_values(|e: (Vec<char>, u32)| (e.0@, e.1))
    }
}

impl View for SymbolTable {
    type V = Map<Seq<char>, u32>;

    closed spec fn view(&self) -> Map<Seq<char>, u32> {
        map_of(self.definitions())
    }
}

proof fn lemma_map_of_without(entries: Seq<(Seq<char>, u32)>, i: int, k: Seq<char>)
    requires
        0 <= i <= entries.len(),
        forall|j: int| i <= j < entries.len() ==> entries[j].0 != k,
    ensures
        map_of(entries).contains_key(k) == map_of(entries.take(i)).contains_key(k),
        map_of(entries)[k] == map_of(entries.take(i))[k],
    decreases entries.len(),
{
    if i < entries.len() {
        lemma_map_of_without(entries.drop_last(), i, k);
        assert(entries.drop_last().take(i) =~= entries.take(i));
    } else {
        assert(entries.take(i) =~= entries);
    }
}

impl SymbolTable {
    /// A table with no labels.
    pub fn new() -> (r: SymbolTable)
        ensures
            r@ == Map::<Seq<char>, u32>::empty(),
    {
        let r = SymbolTable { entries: Vec::new() };
        assert(r.definitions() =~= Seq::empty());
        r
    }

    /// Binds `name` to `address`, replacing what it was bound to.
    pub fn insert(&mut self, name: Vec<char>, address: u32)
        ensures
            final(self)@ == old(self)@.insert(name@, address),
    {
        let ghost n = name@;
        self.entries.push((name, address));
        assert(self.definitions().drop_last() =~= old(self).definitions());
    }

    /// The address bound to `name`, if any.
    pub fn get(&self, name: &Vec<char>) -> (r: Option<u32>)
        ensures
            r == (if self@.contains_key(name@) {
                Some(self@[name@])
            } else {
                None
            }),
    {
        let ghost defs = self.definitions();
        let mut i: usize = self.entries.len();
        while i > 0
            invariant
                i <= self.entries.len(),
                defs == self.definitions(),
                forall|j: int| i <= j < defs.len() ==> defs[j].0 != name@,
            decreases i,
        {
            if same_chars(&self.entries[i - 1].0, name) {
                proof {
                    lemma_map_of_without(defs, i as int, name@);
                    assert(defs.take(i as int).drop_last() =~= defs.take(i - 1));
                }
                return Some(self.entries[i - 1].1);
            }
            i = i - 1;
        }
        proof {
            lemma_map_of_without(defs, 0, name@);
            assert(defs.take(0) =~= Seq::empty());
        }
        None
    }
}

/// An instruction line kept for the second pass, with the address assigned to it.
pub struct PendingInstruction {
    pub address: u32,
    pub text: Vec<char>,
}

impl View for PendingInstruction {
    type V = (u32, Seq<char>);

    open spec fn view(&self) -> (u32, Seq<char>) {
        (self.address, self.text@)
    }
}

/// What each source line holds.
pub open spec fn line_views(lines: Seq<String>) -> Seq<Seq<char>> {
    lines.map_values(|l: String| l@)
}

/// Each kept instruction line as its address and text.
pub open spec fn pending_views(p: Seq<PendingInstruction>) -> Seq<(u32, Seq<char>)> {
    p.map_values(|i: PendingInstruction| i@)
}

/// The first pass over `lines`: the labels with their addresses, and the instruction lines
/// (trimmed) with theirs. Blank lines, comment lines and directives take no address, nor do
/// labels, which are bound to the address of the next instruction.
pub open spec fn resolve_spec(lines: Seq<Seq<char>>) -> (Map<Seq<char>, u32>, Seq<(u32, Seq<char>)>)
    decreases lines.len(),
{
    if lines.len() == 0 {
        (Map::empty(), Seq::empty())
    } else {
        let (labels, pending) = resolve_spec(lines.drop_last());
        let pc = (4 * pending.len()) as u32;
        let t = trim(lines.last());
        if t.len() == 0 || t[0] == '#' {
            (labels, pending)
        } else if t.last() == ':' {
            (labels.insert(strip_end(t, ':'), pc), pending)
        } else if t[0] == '.' {
            (labels, pending)
        } else {
            (labels, pending.push((pc, t)))
        }
    }
}

proof fn lemma_pending_bound(lines: Seq<Seq<char>>)
    ensures
        resolve_spec(lines).1.len() <= lines.len(),
    decreases lines.len(),
{
    if lines.len() > 0 {
        lemma_pending_bound(lines.drop_last());
    }
}

/// Instructions take consecutive words: the `i`-th one is at address `4 * i`.
pub proof fn lemma_addresses_consecutive(lines: Seq<Seq<char>>)
    requires
        lines.len() <= 0x3fff_ffff,
    ensures
        forall|i: int|
            0 <= i < resolve_spec(lines).1.len() ==> #[trigger] resolve_spec(lines).1[i].0 == 4 * i,
    decreases lines.len(),
{
    if lines.len() > 0 {
        lemma_addresses_consecutive(lines.drop_last());
        lemma_pending_bound(lines.drop_last());
    }
}

/// Runs the first pass over the source lines.
pub fn resolve_labels(lines: &Vec<String>) -> (r: (SymbolTable, Vec<PendingInstruction>))
    requires
        lines.len() <= 0x3fff_ffff,
    ensures
        (r.0@, pending_views(r.1@)) == resolve_spec(line_views(lines@)),
        forall|i: int| 0 <= i < r.1.len() ==> #[trigger] r.1@[i].address == 4 * i,
{
    let ghost all = line_views(lines@);
    let mut labels = SymbolTable::new();
    let mut pending: Vec<PendingInstruction> = Vec::new();
    let mut pc: u32 = 0;
    let mut i: usize = 0;
    while i < lines.len()
        invariant
            i <= lines.len() <= 0x3fff_ffff,
            all == line_views(lines@),
            (labels@, pending_views(pending@)) == resolve_spec(all.take(i as int)),
            pending.len() <= i,
            pc == 4 * pending.len(),
            forall|j: int| 0 <= j < pending.len() ==> #[trigger] pending@[j].address == 4 * j,
        decreases lines.len() - i,
    {
        assert(all.take(i + 1).drop_last() =~= all.take(i as int));
        let line = chars_of(lines[i].as_str());
        let t = trim_chars(&line);
        let n = t.len();
        if n == 0 || t[0] == '#' {
        } else if t[n - 1] == ':' {
            let name = strip_end_chars(&t, ':');
            labels.insert(name, pc);
        } else if t[0] == '.' {
        } else {
            let ghost before = pending@;
            pending.push(PendingInstruction { address: pc, text: t });
            assert(pending_views(pending@) =~= pending_views(before).push((pc, trim(all[i as int]))));
            pc = pc + 4;
        }
        i = i + 1;
    }
    assert(all.take(i as int) =~= all);
    (labels, pending)
}

/// The texts of kept instruction lines, in order.
pub open spec fn pending_texts(p: Seq<(u32, Seq<char>)>) -> Seq<Seq<char>> {
    p.map_values(|e: (u32, Seq<char>)| e.1)
}

/// Address assignment is idempotent: a second pass over the instruction lines that a pass kept
/// assigns each of them the same address again, and finds no labels.
pub proof fn lemma_resolution_idempotent(lines: Seq<Seq<char>>)
    ensures
        resolve_spec(pending_texts(resolve_spec(lines).1)) == (
            Map::<Seq<char>, u32>::empty(),
            resolve_spec(lines).1,
        ),
    decreases lines.len(),
{
    let p = resolve_spec(lines).1;
    if lines.len() == 0 {
        assert(pending_texts(p) =~= Seq::empty());
    } else {
        let p0 = resolve_spec(lines.drop_last()).1;
        lemma_resolution_idempotent(lines.drop_last());
        if p.len() == p0.len() {
            assert(pending_texts(p) =~= pending_texts(p0));
        } else {
            let t = trim(lines.last());
            lemma_trim_idempotent(lines.last());
            assert(pending_texts(p).drop_last() =~= pending_texts(p0));
            assert(pending_texts(p).last() == t);
            assert(!is_space('#') && !is_space(':') && !is_space('.'));
        }
    }
}

} // verus!
