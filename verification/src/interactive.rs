//! Interactive mode helper: splitting an input line while keeping byte
//! positions, and matching entries against a typed prefix.

use vstd::prelude::*;
use vstd::string::{StrSliceExecFns, StringSliceAdditionalSpecFns};
use vstd::utf8::encode_utf8;

verus! {

/// The Unicode white-space characters, as `char::is_whitespace` has them.
pub open spec fn is_space_char(c: char) -> bool {
    let v = c as u32;
    ||| v == 0x20
    ||| (0x9 <= v && v <= 0xD)
    ||| v == 0x85
    ||| v == 0xA0
    ||| v == 0x1680
    ||| (0x2000 <= v && v <= 0x200A)
    ||| v == 0x2028
    ||| v == 0x2029
    ||| v == 0x202F
    ||| v == 0x205F
    ||| v == 0x3000
}

/// Tests whether a character is Unicode white space.
pub fn is_space(c: char) -> (r: bool)
    ensures
        r == is_space_char(c),
{
    let v = c as u32;
    v == 0x20 || (0x9 <= v && v <= 0xD) || v == 0x85 || v == 0xA0 || v == 0x1680 || (0x2000 <= v
        && v <= 0x200A) || v == 0x2028 || v == 0x2029 || v == 0x202F || v == 0x205F || v == 0x3000
}

/// How many bytes one character takes in UTF-8.
pub open spec fn char_utf8_len(c: char) -> nat {
    let v = c as u32;
    if v < 0x80 {
        1
    } else if v < 0x800 {
        2
    } else if v < 0x10000 {
        3
    } else {
        4
    }
}

/// How many bytes a text takes in UTF-8.
pub open spec fn utf8_len(s: Seq<char>) -> nat
    decreases s.len(),
{
    if s.len() == 0 {
        0
    } else {
        char_utf8_len(s[0]) + utf8_len(s.drop_first())
    }
}

/// The UTF-8 size of a text is the length of its UTF-8 encoding.
proof fn lemma_utf8_len_is_encode_len(s: Seq<char>)
    ensures
        utf8_len(s) == encode_utf8(s).len(),
    decreases s.len(),
{
    if s.len() > 0 {
        lemma_utf8_len_is_encode_len(s.drop_first());
        vstd::utf8::char_is_scalar(s[0]);
    }
}

/// Appending one character adds its UTF-8 size.
proof fn lemma_utf8_len_push(s: Seq<char>, c: char)
    ensures
        utf8_len(s.push(c)) == utf8_len(s) + char_utf8_len(c),
    decreases s.len(),
{
    if s.len() == 0 {
        assert(s.push(c)[0] == c);
        assert(s.push(c).drop_first() =~= Seq::<char>::empty());
        assert(utf8_len(s.push(c).drop_first()) == 0);
        assert(utf8_len(s) == 0);
    } else {
        assert(s.push(c)[0] == s[0]);
        assert(s.push(c).drop_first() =~= s.drop_first().push(c));
        lemma_utf8_len_push(s.drop_first(), c);
    }
}

/// A prefix takes at most as many bytes as the whole text.
proof fn lemma_utf8_len_take_le(s: Seq<char>, i: int)
    requires
        0 <= i <= s.len(),
    ensures
        utf8_len(s.take(i)) <= utf8_len(s),
    decreases s.len() - i,
{
    if i < s.len() {
        lemma_utf8_len_push(s.take(i), s[i]);
        assert(s.take(i).push(s[i]) =~= s.take(i + 1));
        lemma_utf8_len_take_le(s, i + 1);
    } else {
        assert(s.take(i) =~= s);
    }
}

/// The number of leading characters that are not white space.
pub open spec fn first_space(s: Seq<char>) -> nat
    decreases s.len(),
{
    if s.len() == 0 {
        0
    } else if is_space_char(s[0]) {
        0
    } else {
        1 + first_space(s.drop_first())
    }
}

/// The first white-space character stands exactly at index `k`, or the
/// text holds none and `k` is its length.
proof fn lemma_first_space_at(s: Seq<char>, k: int)
    requires
        0 <= k <= s.len(),
        forall|m: int| 0 <= m < k ==> !is_space_char(s[m]),
        k < s.len() ==> is_space_char(s[k]),
    ensures
        first_space(s) == k,
    decreases k,
{
    if k > 0 {
        assert(!is_space_char(s[0]));
        assert(forall|m: int| 0 <= m < k - 1 ==> s.drop_first()[m] == s[m + 1]);
        lemma_first_space_at(s.drop_first(), k - 1);
    }
}

/// The chunks of a line split on single white-space characters, each with
/// the byte position where it starts, `base` being the position of the
/// first. Splitting keeps empty chunks between consecutive separators, but
/// a separator at the very end opens no further chunk.
pub open spec fn split_position_spec(s: Seq<char>, base: nat) -> Seq<(nat, Seq<char>)>
    decreases s.len(),
{
    if s.len() == 0 {
        Seq::empty()
    } else {
        let k = first_space(s) as int;
        if k >= s.len() {
            seq![(base, s)]
        } else {
            seq![(base, s.take(k))] + split_position_spec(
                s.skip(k + 1),
                base + utf8_len(s.take(k + 1)),
            )
        }
    }
}

/// The chunk list a vector of position-and-text pairs stands for.
pub open spec fn chunks_view(r: Seq<(usize, String)>) -> Seq<(nat, Seq<char>)> {
    Seq::new(r.len(), |k: int| (r[k].0 as nat, r[k].1@))
}

/// Splits a line on white-space characters, keeping the byte position of
/// every chunk, empty chunks included; a separator at the very end opens
/// no further chunk.
pub fn split_position(line: &str) -> (r: Vec<(usize, String)>)
    ensures
        chunks_view(r@) == split_position_spec(line@, 0),
{
    let n = line.unicode_len();
    let byte_len = line.as_bytes().len();
    proof {
        lemma_utf8_len_is_encode_len(line@);
        assert(line.spec_bytes() == encode_utf8(line@));
        assert(byte_len == utf8_len(line@));
        assert(line@.skip(0) =~= line@);
        assert(line@.take(0) =~= Seq::<char>::empty());
    }
    let mut r: Vec<(usize, String)> = Vec::new();
    let mut i: usize = 0;
    let mut base: usize = 0;
    proof {
        assert(chunks_view(r@) + split_position_spec(line@, 0) =~= split_position_spec(
            line@,
            0,
        ));
    }
    while i < n
        invariant
            n == line@.len(),
            i <= n,
            base == utf8_len(line@.take(i as int)),
            utf8_len(line@) == byte_len,
            split_position_spec(line@, 0) == chunks_view(r@) + split_position_spec(
                line@.skip(i as int),
                base as nat,
            ),
        decreases n - i,
    {
        let ghost tail = line@.skip(i as int);
        let mut j: usize = i;
        let mut step: usize = 0;
        while j < n && !is_space(line.get_char(j))
            invariant
                i <= j <= n,
                n == line@.len(),
                utf8_len(line@) == byte_len,
                base == utf8_len(line@.take(i as int)),
                step == utf8_len(line@.take(j as int)) - utf8_len(line@.take(i as int)),
                forall|m: int| i <= m < j ==> !is_space_char(line@[m]),
            decreases n - j,
        {
            let c = line.get_char(j);
            proof {
                lemma_utf8_len_push(line@.take(j as int), c);
                assert(line@.take(j as int).push(c) =~= line@.take(j as int + 1));
                lemma_utf8_len_take_le(line@, j as int + 1);
            }
            step = step + char_len_utf8(c);
            j = j + 1;
        }
        proof {
            assert(forall|m: int| 0 <= m < j - i ==> tail[m] == line@[m + i]);
            assert(j < n ==> tail[j - i] == line@[j as int]);
            lemma_first_space_at(tail, j - i);
            assert(tail.take(j - i) =~= line@.subrange(i as int, j as int));
        }
        let chunk = line.substring_char(i, j).to_owned();
        let ghost prev = r@;
        r.push((base, chunk));
        proof {
            assert(chunks_view(r@) =~= chunks_view(prev).push(
                (base as nat, line@.subrange(i as int, j as int)),
            ));
        }
        if j < n {
            let c = line.get_char(j);
            proof {
                lemma_utf8_len_push(line@.take(j as int), c);
                assert(line@.take(j as int).push(c) =~= line@.take(j as int + 1));
                lemma_utf8_len_take_le(line@, j as int);
                lemma_utf8_len_take_le(line@, j as int + 1);
                assert(tail.skip(j - i + 1) =~= line@.skip(j as int + 1));
                assert(utf8_len(tail.take(j - i + 1)) == utf8_len(line@.take(j as int + 1))
                    - utf8_len(line@.take(i as int))) by {
                    lemma_utf8_len_concat(line@.take(i as int), tail.take(j - i + 1));
                    assert(line@.take(i as int) + tail.take(j - i + 1) =~= line@.take(
                        j as int + 1,
                    ));
                }
                assert(chunks_view(prev).push((base as nat, tail.take(j - i)))
                    + split_position_spec(
                    line@.skip(j as int + 1),
                    (base + utf8_len(tail.take(j - i + 1))) as nat,
                ) =~= chunks_view(prev) + (seq![(base as nat, tail.take(j - i))]
                    + split_position_spec(
                    line@.skip(j as int + 1),
                    (base + utf8_len(tail.take(j - i + 1))) as nat,
                )));
            }
            base = base + step + char_len_utf8(c);
            i = j + 1;
        } else {
            proof {
                assert(tail.take(j - i) =~= tail);
                assert(line@.skip(n as int) =~= Seq::<char>::empty());
                assert(chunks_view(prev).push((base as nat, tail)) + split_position_spec(
                    line@.skip(n as int),
                    (base + step) as nat,
                ) =~= chunks_view(prev) + seq![(base as nat, tail)]);
                lemma_utf8_len_concat(line@.take(i as int), tail);
                assert(line@.take(i as int) + tail =~= line@);
                lemma_utf8_len_take_le(line@, j as int);
            }
            base = base + step;
            i = j;
        }
    }
    proof {
        assert(line@.skip(n as int) =~= Seq::<char>::empty());
        assert(chunks_view(r@) + Seq::<(nat, Seq<char>)>::empty() =~= chunks_view(r@));
    }
    r
}

/// The UTF-8 size distributes over concatenation.
proof fn lemma_utf8_len_concat(a: Seq<char>, b: Seq<char>)
    ensures
        utf8_len(a + b) == utf8_len(a) + utf8_len(b),
    decreases a.len(),
{
    if a.len() == 0 {
        assert(a + b =~= b);
    } else {
        assert((a + b)[0] == a[0]);
        assert((a + b).drop_first() =~= a.drop_first() + b);
        lemma_utf8_len_concat(a.drop_first(), b);
    }
}

/// How many bytes the character takes in UTF-8.
pub fn char_len_utf8(c: char) -> (r: usize)
    ensures
        r == char_utf8_len(c),
{
    let v = c as u32;
    if v < 0x80 {
        1
    } else if v < 0x800 {
        2
    } else if v < 0x10000 {
        3
    } else {
        4
    }
}

/// Holds of the texts that begin with `prefix`.
pub open spec fn prefix_pred(prefix: Seq<char>) -> spec_fn(Seq<char>) -> bool {
    |e: Seq<char>| spec_starts_with(e, prefix)
}

/// One text opens with the other.
pub open spec fn spec_starts_with(s: Seq<char>, prefix: Seq<char>) -> bool {
    prefix.len() <= s.len() && s.take(prefix.len() as int) == prefix
}

/// Tests whether `s` begins with `prefix`, character by character.
pub fn str_starts_with(s: &str, prefix: &str) -> (r: bool)
    ensures
        r == spec_starts_with(s@, prefix@),
{
    let np = prefix.unicode_len();
    let ns = s.unicode_len();
    if np > ns {
        return false;
    }
    let mut i: usize = 0;
    while i < np
        invariant
            np == prefix@.len(),
            ns == s@.len(),
            np <= ns,
            i <= np,
            forall|m: int| 0 <= m < i ==> s@[m] == prefix@[m],
        decreases np - i,
    {
        if s.get_char(i) != prefix.get_char(i) {
            proof {
                assert(s@.take(np as int)[i as int] != prefix@[i as int]);
            }
            return false;
        }
        i = i + 1;
    }
    proof {
        assert(s@.take(np as int) =~= prefix@);
    }
    true
}

/// Completion helper over the discovered boot entries.
#[derive(Debug)]
pub struct RustylineHelper {
    entries: Vec<String>,
}

impl View for RustylineHelper {
    type V = Seq<Seq<char>>;

    closed spec fn view(&self) -> Seq<Seq<char>> {
        self.entries.deep_view()
    }
}

impl RustylineHelper {
    /// Creates a new helper from the given entries.
    pub fn new(entries: Vec<String>) -> (r: RustylineHelper)
        ensures
            r@ == entries.deep_view(),
    {
        RustylineHelper { entries }
    }

    /// The stored entries, in order.
    pub fn entries(&self) -> (r: &Vec<String>)
        ensures
            r.deep_view() == self@,
    {
        &self.entries
    }

    /// The stored entries that begin with the typed prefix, in order.
    pub fn matching_entries(&self, prefix: &str) -> (r: Vec<String>)
        ensures
            r.deep_view() == self@.filter(prefix_pred(prefix@)),
    {
        let ghost pred = prefix_pred(prefix@);
        let mut r: Vec<String> = Vec::new();
        let mut i: usize = 0;
        proof {
            reveal(Seq::filter);
            assert(self@.take(0) =~= Seq::<Seq<char>>::empty());
            assert(r.deep_view() =~= self@.take(0).filter(pred));
        }
        while i < self.entries.len()
            invariant
                pred == prefix_pred(prefix@),
                i <= self.entries@.len(),
                self@ == self.entries.deep_view(),
                self@.len() == self.entries@.len(),
                forall|m: int| 0 <= m < self@.len() ==> self@[m] == self.entries@[m]@,
                r.deep_view() == self@.take(i as int).filter(pred),
            decreases self.entries@.len() - i,
        {
            proof {
                reveal(Seq::filter);
                assert(self@.take(i as int + 1).drop_last() =~= self@.take(i as int));
                assert(self@.take(i as int + 1).last() == self@[i as int]);
            }
            let entry = &self.entries[i];
            let ghost prev = r.deep_view();
            if str_starts_with(entry.as_str(), prefix) {
                r.push(entry.clone());
                proof {
                    reveal(Seq::filter);
                    assert(r.deep_view() =~= prev.push(self@[i as int]));
                    assert(self@.take(i as int + 1).filter(pred) =~= self@.take(i as int).filter(
                        pred,
                    ).push(self@[i as int]));
                }
            } else {
                proof {
                    reveal(Seq::filter);
                    assert(self@.take(i as int + 1).filter(pred) =~= self@.take(i as int).filter(
                        pred,
                    ));
                }
            }
            i = i + 1;
        }
        proof {
            assert(self@.take(self@.len() as int) =~= self@);
        }
        r
    }
}

} // verus!
