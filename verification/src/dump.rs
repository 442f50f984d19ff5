//! The dump document of a whole walk, and the builder that writes it.
//!
//! A walk is modelled as a sequence of entries, one per path the walker
//! yielded, each paired with the outcome of trying to read it: the file's
//! bytes, or nothing when it could not be opened. The document is a function
//! of that sequence and of the output path alone.

use vstd::prelude::*;
use crate::block::{block_bytes, footer, header_for, shown_name, shown_name_spec};

verus! {

/// One walked path together with the outcome of trying to read it:
/// `Some(bytes)` when it was opened and read whole, `None` when opening
/// failed.
pub type Entry = (Seq<u8>, Option<Seq<u8>>);

/// An entry yields a block exactly when it was readable and is not the
/// output file itself.
pub open spec fn emits(path: Seq<u8>, content: Option<Seq<u8>>, out: Seq<u8>) -> bool {
    path != out && content.is_some()
}

/// The bytes an entry contributes to the document: its block, or nothing.
pub open spec fn entry_bytes(path: Seq<u8>, content: Option<Seq<u8>>, out: Seq<u8>) -> Seq<u8> {
    if emits(path, content, out) {
        block_bytes(shown_name_spec(path), content.unwrap())
    } else {
        Seq::<u8>::empty()
    }
}

/// The whole document of a walk: each entry's contribution, in walk order.
pub open spec fn dump_bytes(entries: Seq<Entry>, out: Seq<u8>) -> Seq<u8>
    decreases entries.len(),
{
    if entries.len() == 0 {
        Seq::<u8>::empty()
    } else {
        dump_bytes(entries.drop_last(), out)
            + entry_bytes(entries.last().0, entries.last().1, out)
    }
}

/// The blocks of a walk's document: the shown name and content of each
/// emitting entry, in walk order.
pub open spec fn blocks_of(entries: Seq<Entry>, out: Seq<u8>) -> Seq<(Seq<u8>, Seq<u8>)>
    decreases entries.len(),
{
    if entries.len() == 0 {
        Seq::<(Seq<u8>, Seq<u8>)>::empty()
    } else {
        let rest = blocks_of(entries.drop_last(), out);
        let e = entries.last();
        if emits(e.0, e.1, out) {
            rest.push((shown_name_spec(e.0), e.1.unwrap()))
        } else {
            rest
        }
    }
}

/// The bytes of a list of blocks laid end to end.
pub open spec fn blocks_bytes(bs: Seq<(Seq<u8>, Seq<u8>)>) -> Seq<u8>
    decreases bs.len(),
{
    if bs.len() == 0 {
        Seq::<u8>::empty()
    } else {
        blocks_bytes(bs.drop_last()) + block_bytes(bs.last().0, bs.last().1)
    }
}

/// How many entries of a walk were opened successfully and are not the
/// output file.
pub open spec fn emit_count(entries: Seq<Entry>, out: Seq<u8>) -> nat
    decreases entries.len(),
{
    if entries.len() == 0 {
        0
    } else {
        emit_count(entries.drop_last(), out)
            + if emits(entries.last().0, entries.last().1, out) { 1nat } else { 0nat }
    }
}

/// Appending one entry appends exactly that entry's contribution.
proof fn lemma_dump_push(entries: Seq<Entry>, e: Entry, out: Seq<u8>)
    ensures
        dump_bytes(entries.push(e), out) == dump_bytes(entries, out) + entry_bytes(e.0, e.1, out),
        blocks_of(entries.push(e), out) == (if emits(e.0, e.1, out) {
            blocks_of(entries, out).push((shown_name_spec(e.0), e.1.unwrap()))
        } else {
            blocks_of(entries, out)
        }),
{
    assert(entries.push(e).drop_last() =~= entries);
    assert(entries.push(e).last() == e);
}

/// Law: a walk's document is exactly its blocks laid end to end, with one
/// block per entry that was opened successfully and is not the output file.
pub proof fn lemma_one_block_per_file(entries: Seq<Entry>, out: Seq<u8>)
    ensures
        dump_bytes(entries, out) == blocks_bytes(blocks_of(entries, out)),
        blocks_of(entries, out).len() == emit_count(entries, out),
    decreases entries.len(),
{
    if entries.len() == 0 {
    } else {
        lemma_one_block_per_file(entries.drop_last(), out);
        let e = entries.last();
        let rest = blocks_of(entries.drop_last(), out);
        if emits(e.0, e.1, out) {
            let b = (shown_name_spec(e.0), e.1.unwrap());
            assert(rest.push(b).drop_last() =~= rest);
            assert(rest.push(b).last() == b);
        } else {
            assert(dump_bytes(entries.drop_last(), out) + entry_bytes(e.0, e.1, out)
                =~= dump_bytes(entries.drop_last(), out));
        }
    }
}

/// An entry that emits no block leaves the document of any walk around it
/// unchanged.
proof fn lemma_silent_entry(xs: Seq<Entry>, e: Entry, ys: Seq<Entry>, out: Seq<u8>)
    requires
        !emits(e.0, e.1, out),
    ensures
        dump_bytes(xs.push(e) + ys, out) == dump_bytes(xs + ys, out),
        blocks_of(xs.push(e) + ys, out) == blocks_of(xs + ys, out),
    decreases ys.len(),
{
    if ys.len() == 0 {
        assert(xs.push(e) + ys =~= xs.push(e));
        assert(xs + ys =~= xs);
        lemma_dump_push(xs, e, out);
        assert(dump_bytes(xs, out) + entry_bytes(e.0, e.1, out) =~= dump_bytes(xs, out));
    } else {
        let ys0 = ys.drop_last();
        lemma_silent_entry(xs, e, ys0, out);
        assert((xs.push(e) + ys).drop_last() =~= xs.push(e) + ys0);
        assert((xs + ys).drop_last() =~= xs + ys0);
        assert((xs.push(e) + ys).last() == ys.last());
        assert((xs + ys).last() == ys.last());
    }
}

/// Law: a file that could not be opened contributes no block, and the files
/// walked after it come out exactly as they would have without it.
pub proof fn lemma_unreadable_is_silent(xs: Seq<Entry>, path: Seq<u8>, ys: Seq<Entry>, out: Seq<u8>)
    ensures
        dump_bytes(xs.push((path, Option::None)) + ys, out) == dump_bytes(xs + ys, out),
        blocks_of(xs.push((path, Option::None)) + ys, out) == blocks_of(xs + ys, out),
{
    lemma_silent_entry(xs, (path, Option::None), ys, out);
}

/// Law: the output file is never one of its own inputs: an entry whose path
/// is the output path leaves the document unchanged, whatever was read from
/// it, wherever in the walk it turned up.
pub proof fn lemma_output_excluded(xs: Seq<Entry>, content: Option<Seq<u8>>, ys: Seq<Entry>, out: Seq<u8>)
    ensures
        dump_bytes(xs.push((out, content)) + ys, out) == dump_bytes(xs + ys, out),
        blocks_of(xs.push((out, content)) + ys, out) == blocks_of(xs + ys, out),
{
    lemma_silent_entry(xs, (out, content), ys, out);
}

/// Law: a walk that found no files yields a document with no blocks.
pub proof fn lemma_empty_walk(out: Seq<u8>)
    ensures
        dump_bytes(Seq::<Entry>::empty(), out) == Seq::<u8>::empty(),
        blocks_of(Seq::<Entry>::empty(), out).len() == 0,
{
}

/// Writes the dump document of one walk, entry by entry.
pub struct DumpBuilder {
    out_path: Vec<u8>,
    bytes: Vec<u8>,
    entries: Ghost<Seq<Entry>>,
}

impl DumpBuilder {
    /// The entries recorded so far, in walk order.
    pub closed spec fn entries(self) -> Seq<Entry> {
        self.entries@
    }

    /// The output path every walked path is held against.
    pub closed spec fn out(self) -> Seq<u8> {
        self.out_path@
    }

    /// The document written so far.
    pub closed spec fn output(self) -> Seq<u8> {
        self.bytes@
    }

    /// The document written so far is exactly the dump of the recorded
    /// entries.
    pub open spec fn wf(self) -> bool {
        self.output() == dump_bytes(self.entries(), self.out())
    }

    /// A fresh builder for one run, with nothing recorded yet.
    pub fn new(out_path: Vec<u8>) -> (d: DumpBuilder)
        ensures
            d.wf(),
            d.entries() == Seq::<Entry>::empty(),
            d.out() == out_path@,
            d.output() == Seq::<u8>::empty(),
    {
        DumpBuilder { out_path, bytes: Vec::new(), entries: Ghost(Seq::empty()) }
    }

    /// Whether two byte strings are equal.
    fn path_eq(a: &Vec<u8>, b: &Vec<u8>) -> (r: bool)
        ensures
            r == (a@ == b@),
    {
        if a.len() != b.len() {
            return false;
        }
        let mut i: usize = 0;
        while i < a.len()
            invariant
                i <= a@.len(),
                a@.len() == b@.len(),
                forall|j: int| 0 <= j < i ==> a@[j] == b@[j],
            decreases a@.len() - i,
        {
            if a[i] != b[i] {
                return false;
            }
            i = i + 1;
        }
        proof {
            assert(a@ =~= b@);
        }
        true
    }

    /// Whether a walked path should be opened at all: every path but the
    /// output file's own.
    pub fn should_open(&self, path: &Vec<u8>) -> (r: bool)
        ensures
            r == (path@ != self.out()),
    {
        !Self::path_eq(path, &self.out_path)
    }

    /// Records one walked path that was opened and read whole, and appends
    /// its block — unless the path is the output file, which never becomes
    /// part of its own document.
    pub fn add_file(&mut self, path: &Vec<u8>, content: &Vec<u8>) -> (added: bool)
        requires
            old(self).wf(),
        ensures
            final(self).wf(),
            final(self).out() == old(self).out(),
            final(self).entries() == old(self).entries().push((path@, Option::Some(content@))),
            added == (path@ != old(self).out()),
            added ==> final(self).output() == old(self).output()
                + block_bytes(shown_name_spec(path@), content@),
            !added ==> final(self).output() == old(self).output(),
    {
        let ghost e: Entry = (path@, Option::Some(content@));
        let keep = self.should_open(path);
        if keep {
            let name = shown_name(path);
            let header = header_for(&name);
            self.bytes.extend_from_slice(header.as_slice());
            self.bytes.extend_from_slice(content.as_slice());
            let foot = footer();
            self.bytes.extend_from_slice(foot.as_slice());
            proof {
                assert(self.bytes@ =~= old(self).bytes@
                    + block_bytes(shown_name_spec(path@), content@));
            }
        }
        proof {
            lemma_dump_push(self.entries@, e, self.out_path@);
            if path@ == old(self).out() {
                assert(old(self).bytes@ + entry_bytes(e.0, e.1, old(self).out_path@)
                    =~= old(self).bytes@);
            }
        }
        self.entries = Ghost(self.entries@.push(e));
        keep
    }

    /// Records one walked path that could not be opened. The document is
    /// unchanged, and the builder goes on taking the files after it.
    pub fn add_unreadable(&mut self, path: &Vec<u8>)
        requires
            old(self).wf(),
        ensures
            final(self).wf(),
            final(self).out() == old(self).out(),
            final(self).entries() == old(self).entries().push((path@, Option::None)),
            final(self).output() == old(self).output(),
    {
        let ghost e: Entry = (path@, Option::None);
        proof {
            lemma_dump_push(self.entries@, e, self.out_path@);
            assert(old(self).bytes@ + entry_bytes(e.0, e.1, old(self).out_path@)
                =~= old(self).bytes@);
        }
        self.entries = Ghost(self.entries@.push(e));
    }

    /// The finished document.
    pub fn finish(self) -> (r: Vec<u8>)
        requires
            self.wf(),
        ensures
            r@ == dump_bytes(self.entries(), self.out()),
    {
        self.bytes
    }
}

} // verus!
