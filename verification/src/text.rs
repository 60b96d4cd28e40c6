use vstd::prelude::*;
use vstd::string::{StrSliceExecFns, StringExecFns};

verus! {

/// The characters of `s`, in order.
pub fn chars_of(s: &str) -> (v: Vec<char>)
    ensures
        v@ == s@,
{
    let mut v: Vec<char> = Vec::new();
    for c in it: s.chars()
        invariant
            v@ == it.seq().take(it.index() as int),
    {
        v.push(c);
    }
    v
}

/// The chars with the Unicode property White_Space (what `char::is_whitespace` tests).
pub open spec fn is_white_space(c: char) -> bool {
    let u = c as u32;
    (9 <= u && u <= 13) || u == 32 || u == 0x85 || u == 0xA0 || u == 0x1680 || (0x2000 <= u && u
        <= 0x200A) || u == 0x2028 || u == 0x2029 || u == 0x202F || u == 0x205F || u == 0x3000
}

/// Whether `c` is white space, as `char::is_whitespace` decides it.
pub fn is_whitespace(c: char) -> (r: bool)
    ensures
        r == is_white_space(c),
{
    let u = c as u32;
    (9 <= u && u <= 13) || u == 32 || u == 0x85 || u == 0xA0 || u == 0x1680 || (0x2000 <= u && u
        <= 0x200A) || u == 0x2028 || u == 0x2029 || u == 0x202F || u == 0x205F || u == 0x3000
}

/// Some char of `s` is white space.
pub open spec fn has_white_space(s: Seq<char>) -> bool {
    exists|i: int| 0 <= i < s.len() && is_white_space(#[trigger] s[i])
}

/// The pieces of `s` between its white-space chars, as `str::split(char::is_whitespace)`
/// gives them: one more piece than there are white-space chars; pieces may be empty.
pub open spec fn split_white(s: Seq<char>) -> Seq<Seq<char>>
    decreases s.len(),
{
    if s.len() == 0 {
        seq![Seq::empty()]
    } else {
        let r = split_white(s.drop_last());
        if is_white_space(s.last()) {
            r.push(Seq::empty())
        } else {
            r.update(r.len() - 1, r.last().push(s.last()))
        }
    }
}

pub proof fn lemma_split_white_len(s: Seq<char>)
    ensures
        split_white(s).len() >= 1,
    decreases s.len(),
{
    if s.len() > 0 {
        lemma_split_white_len(s.drop_last());
    }
}

/// No piece of a split holds a white-space char.
pub proof fn lemma_split_white_pieces(s: Seq<char>)
    ensures
        forall|k: int|
            0 <= k < split_white(s).len() ==> !has_white_space(#[trigger] split_white(s)[k]),
    decreases s.len(),
{
    if s.len() > 0 {
        lemma_split_white_pieces(s.drop_last());
        lemma_split_white_len(s.drop_last());
        let r = split_white(s.drop_last());
        if !is_white_space(s.last()) {
            let l = r.last().push(s.last());
            assert forall|i: int| 0 <= i < l.len() implies !is_white_space(#[trigger] l[i]) by {
                if i < l.len() - 1 {
                    assert(l[i] == r.last()[i]);
                    assert(!has_white_space(r[r.len() - 1]));
                }
            }
        }
    }
}

/// The pieces of `s` between its white-space chars, in order.
pub fn split_whitespace_pieces(s: &str) -> (r: Vec<String>)
    ensures
        r@.len() == split_white(s@).len(),
        forall|k: int| 0 <= k < r@.len() ==> (#[trigger] r@[k])@ == split_white(s@)[k],
{
    let cs = chars_of(s);
    let mut pieces: Vec<String> = Vec::new();
    let mut start: usize = 0;
    let mut j: usize = 0;
    assert(cs@.take(0) =~= Seq::<char>::empty());
    while j < cs.len()
        invariant
            start <= j <= cs.len(),
            cs@ == s@,
            split_white(cs@.take(j as int)) =~= Seq::new(pieces@.len() as nat, |k: int| pieces@[k]@).push(
                cs@.subrange(start as int, j as int),
            ),
        decreases cs.len() - j,
    {
        let ghost before = Seq::new(pieces@.len() as nat, |k: int| pieces@[k]@);
        let ghost r = split_white(cs@.take(j as int));
        assert(cs@.take(j + 1).drop_last() =~= cs@.take(j as int));
        assert(cs@.take(j + 1).last() == cs@[j as int]);
        if is_whitespace(cs[j]) {
            pieces.push(String::from_str(s.substring_char(start, j)));
            assert(Seq::new(pieces@.len() as nat, |k: int| pieces@[k]@) =~= before.push(
                cs@.subrange(start as int, j as int),
            ));
            start = j + 1;
            assert(split_white(cs@.take(j + 1)) =~= r.push(Seq::empty()));
            assert(cs@.subrange(start as int, j + 1) =~= Seq::<char>::empty());
        } else {
            assert(cs@.subrange(start as int, j + 1) =~= cs@.subrange(start as int, j as int).push(
                cs@[j as int],
            ));
            assert(split_white(cs@.take(j + 1)) =~= r.update(r.len() - 1, r.last().push(cs@[j as int])));
        }
        j = j + 1;
    }
    pieces.push(String::from_str(s.substring_char(start, j)));
    assert(cs@.take(j as int) =~= cs@);
    pieces
}

} // verus!
