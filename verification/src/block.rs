//! The shape of one block of the dump document: a header line carrying the
//! file's shown name, the raw content, and a closing fence.

use vstd::prelude::*;

verus! {

/// Byte value of the path separator `/`.
pub const SLASH: u8 = 47;

/// The bytes of a path after its last separator: the whole path when it has
/// no separator, and empty when the path ends with one.
pub open spec fn base_name_spec(path: Seq<u8>) -> Seq<u8>
    decreases path.len(),
{
    if path.len() == 0 {
        Seq::<u8>::empty()
    } else if path.last() == SLASH {
        Seq::<u8>::empty()
    } else {
        base_name_spec(path.drop_last()).push(path.last())
    }
}

/// The stand-in name for a path whose base name comes out empty.
pub open spec fn unknown_name() -> Seq<u8> {
    seq![117u8, 110u8, 107u8, 110u8, 111u8, 119u8, 110u8]
}

/// The name written into a block's header: the base name, or `unknown` when
/// the base name is empty.
pub open spec fn shown_name_spec(path: Seq<u8>) -> Seq<u8> {
    if base_name_spec(path).len() == 0 {
        unknown_name()
    } else {
        base_name_spec(path)
    }
}

/// The header line of a block: `### `, the name, a newline, an opening fence
/// of three backticks, and a newline.
pub open spec fn header_bytes(name: Seq<u8>) -> Seq<u8> {
    seq![35u8, 35u8, 35u8, 32u8] + name + seq![10u8, 96u8, 96u8, 96u8, 10u8]
}

/// The closing delimiter of a block: a newline, three backticks, and a blank
/// line.
pub open spec fn footer_bytes() -> Seq<u8> {
    seq![10u8, 96u8, 96u8, 96u8, 10u8, 10u8]
}

/// One whole block: header, raw content verbatim, closing delimiter.
pub open spec fn block_bytes(name: Seq<u8>, content: Seq<u8>) -> Seq<u8> {
    header_bytes(name) + content + footer_bytes()
}

/// A path without any separator is its own base name.
proof fn lemma_base_name_no_slash(path: Seq<u8>)
    requires
        forall|j: int| 0 <= j < path.len() ==> path[j] != SLASH,
    ensures
        base_name_spec(path) == path,
    decreases path.len(),
{
    if path.len() == 0 {
        assert(base_name_spec(path) =~= path);
    } else {
        lemma_base_name_no_slash(path.drop_last());
        assert(base_name_spec(path) =~= path);
    }
}

/// When the last separator of a path stands at `i`, the base name is the
/// suffix after it.
proof fn lemma_base_name_after_slash(path: Seq<u8>, i: int)
    requires
        0 <= i < path.len(),
        path[i] == SLASH,
        forall|j: int| i < j < path.len() ==> path[j] != SLASH,
    ensures
        base_name_spec(path) == path.skip(i + 1),
    decreases path.len(),
{
    if i == path.len() - 1 {
        assert(base_name_spec(path) =~= path.skip(i + 1));
    } else {
        lemma_base_name_after_slash(path.drop_last(), i);
        assert(path.drop_last().skip(i + 1).push(path.last()) =~= path.skip(i + 1));
    }
}

/// Copies the base name of a path out of it.
#[verifier::loop_isolation(false)]
pub fn base_name(path: &Vec<u8>) -> (r: Vec<u8>)
    ensures
        r@ == base_name_spec(path@),
{
    let mut start: usize = path.len();
    while start > 0 && path[start - 1] != SLASH
        invariant
            start <= path@.len(),
            forall|j: int| start <= j < path@.len() ==> path@[j] != SLASH,
        decreases start,
    {
        start = start - 1;
    }
    let mut r: Vec<u8> = Vec::new();
    let mut k: usize = start;
    while k < path.len()
        invariant
            start <= k <= path@.len(),
            r@ == path@.subrange(start as int, k as int),
        decreases path@.len() - k,
    {
        let b = path[k];
        r.push(b);
        proof {
            assert(r@ =~= path@.subrange(start as int, k + 1 as int));
        }
        k = k + 1;
    }
    proof {
        if start == 0 {
            lemma_base_name_no_slash(path@);
        } else {
            lemma_base_name_after_slash(path@, start - 1);
        }
        assert(path@.subrange(start as int, path@.len() as int) =~= path@.skip(start as int));
    }
    r
}

/// The name a block header shows for a path.
pub fn shown_name(path: &Vec<u8>) -> (r: Vec<u8>)
    ensures
        r@ == shown_name_spec(path@),
{
    let mut r = base_name(path);
    if r.len() == 0 {
        r.push(117);
        r.push(110);
        r.push(107);
        r.push(110);
        r.push(111);
        r.push(119);
        r.push(110);
        proof {
            assert(r@ =~= unknown_name());
        }
    }
    r
}

/// Builds the header line for a name.
pub fn header_for(name: &Vec<u8>) -> (r: Vec<u8>)
    ensures
        r@ == header_bytes(name@),
{
    let mut r: Vec<u8> = Vec::new();
    r.push(35);
    r.push(35);
    r.push(35);
    r.push(32);
    r.extend_from_slice(name.as_slice());
    r.push(10);
    r.push(96);
    r.push(96);
    r.push(96);
    r.push(10);
    proof {
        assert(r@ =~= header_bytes(name@));
    }
    r
}

/// Builds the closing delimiter of a block.
pub fn footer() -> (r: Vec<u8>)
    ensures
        r@ == footer_bytes(),
{
    let mut r: Vec<u8> = Vec::new();
    r.push(10);
    r.push(96);
    r.push(96);
    r.push(96);
    r.push(10);
    r.push(10);
    proof {
        assert(r@ =~= footer_bytes());
    }
    r
}

} // verus!
