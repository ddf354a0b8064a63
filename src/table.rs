//! Bucketed lookup table of packed byte patterns.
use vstd::prelude::*;

use crate::encoding::{byte_of, encode, encode_spec, lemma_packed_bytes};
use crate::kind::TokenKind;

verus! {

/// One candidate of a bucket: a packed pattern of `len` bytes and the kind it stands for.
#[derive(Clone, Copy, Debug, PartialEq, Eq, Structural)]
pub struct Entry {
    pub value: u128,
    pub len: u8,
    pub kind: TokenKind,
}

/// `e`'s pattern equals the first `e.len` bytes of `input`.
pub open spec fn entry_matches(e: Entry, input: Seq<u8>) -> bool {
    e.len <= input.len() && encode_spec(input.take(e.len as int)) == e.value
}

/// The first entry of `es`, from index `j` on, whose pattern opens `input`.
pub open spec fn first_match_from(es: Seq<Entry>, input: Seq<u8>, j: int) -> Option<Entry>
    decreases es.len() - j,
{
    if j < 0 || j >= es.len() {
        None
    } else if entry_matches(es[j], input) {
        Some(es[j])
    } else {
        first_match_from(es, input, j + 1)
    }
}

/// The first entry of `es` whose pattern opens `input`.
pub open spec fn first_match(es: Seq<Entry>, input: Seq<u8>) -> Option<Entry> {
    first_match_from(es, input, 0)
}

/// What the first match is: an entry of the bucket whose pattern opens the input; and
/// where there is none, no entry's pattern does.
pub proof fn lemma_first_match(es: Seq<Entry>, input: Seq<u8>, j: int)
    requires
        0 <= j <= es.len(),
    ensures
        first_match_from(es, input, j) matches Some(e) ==> exists|i: int|
            j <= i < es.len() && es[i] == e && entry_matches(e, input),
        first_match_from(es, input, j) is None ==> forall|i: int|
            j <= i < es.len() ==> !entry_matches(#[trigger] es[i], input),
    decreases es.len() - j,
{
    if j < es.len() {
        lemma_first_match(es, input, j + 1);
    }
}

/// Unpacking an entry gives back the pattern it was made from.
pub proof fn lemma_reconstruct(key: Seq<u8>, r: Seq<u8>, value: u128)
    requires
        key.len() <= 16,
        value == encode_spec(key),
        r.len() == key.len(),
        forall|k: int| 0 <= k < r.len() ==> #[trigger] r[k] as u128 == byte_of(value, k as u128),
    ensures
        r == key,
{
    assert forall|k: int| 0 <= k < r.len() implies r[k] == key[k] by {
        lemma_packed_bytes(key, key.len(), k as u128);
    }
    assert(r =~= key);
}

impl Entry {
    /// The entry for pattern `key` standing for `kind`.
    pub fn new(key: &[u8], kind: TokenKind) -> (r: Entry)
        requires
            key@.len() <= 16,
        ensures
            r.value == encode_spec(key@),
            r.len == key@.len(),
            r.kind == kind,
    {
        Entry { value: encode(key), len: key.len() as u8, kind }
    }

    /// The pattern's bytes, unpacked from the packed value.
    pub fn reconstruct(&self) -> (r: Vec<u8>)
        requires
            self.len <= 16,
        ensures
            r@.len() == self.len,
            forall|k: int| 0 <= k < self.len ==> #[trigger] r@[k] as u128 == byte_of(self.value, k as u128),
    {
        let mut r: Vec<u8> = Vec::new();
        let mut k: u8 = 0;
        while k < self.len
            invariant
                k <= self.len <= 16,
                r@.len() == k,
                forall|x: int| 0 <= x < k ==> #[trigger] r@[x] as u128 == byte_of(self.value, x as u128),
            decreases self.len - k,
        {
            let v = self.value;
            let b = (v >> (8 * k as u128)) & 0xff;
            assert(b < 256) by (bit_vector)
                requires
                    b == (v >> (8 * k as u128)) & 0xff,
            ;
            r.push(b as u8);
            k += 1;
        }
        r
    }

    /// The kind this entry stands for.
    pub fn kind(&self) -> (r: TokenKind)
        ensures
            r == self.kind,
    {
        self.kind
    }
}

/// Buckets of entries, each scanned in order, first match winning.
pub struct Table {
    groups: Vec<Vec<Entry>>,
}

impl View for Table {
    type V = Seq<Seq<Entry>>;

    closed spec fn view(&self) -> Seq<Seq<Entry>> {
        Seq::new(self.groups@.len(), |g: int| self.groups@[g]@)
    }
}

impl Table {
    /// A table holding `groups` as its buckets.
    pub fn new(groups: Vec<Vec<Entry>>) -> (r: Table)
        ensures
            r@.len() == groups@.len(),
            forall|g: int| 0 <= g < groups@.len() ==> r@[g] == #[trigger] groups@[g]@,
    {
        Table { groups }
    }

    /// Every entry's pattern fits a packed value.
    pub open spec fn wf(&self) -> bool {
        forall|g: int, j: int|
            0 <= g < self@.len() && 0 <= j < self@[g].len() ==> #[trigger] self@[g][j].len <= 16
    }

    /// The first entry of bucket `group` whose pattern opens `input`, without consuming
    /// anything; `None` where `group` is `None`, names no bucket, or no entry matches.
    pub fn find(&self, group: Option<usize>, input: &[u8]) -> (r: Option<Entry>)
        requires
            self.wf(),
        ensures
            r == match group {
                Some(g) => if g < self@.len() {
                    first_match(self@[g as int], input@)
                } else {
                    None
                },
                None => None,
            },
    {
        let g = match group {
            Some(g) => g,
            None => return None,
        };
        if g >= self.groups.len() {
            return None;
        }
        let es = &self.groups[g];
        let ghost s = es@;
        assert(s == self@[g as int]);
        let mut j: usize = 0;
        while j < es.len()
            invariant
                s == es@,
                s == self@[g as int],
                group == Some(g),
                g < self@.len(),
                j <= s.len(),
                forall|i: int| 0 <= i < s.len() ==> #[trigger] s[i].len <= 16,
                first_match(s, input@) == first_match_from(s, input@, j as int),
            decreases s.len() - j,
        {
            let e = es[j];
            let n = e.len as usize;
            if n <= input.len() {
                let w = vstd::slice::slice_subrange(input, 0, n);
                assert(w@ == input@.take(n as int));
                if encode(w) == e.value {
                    assert(entry_matches(s[j as int], input@));
                    return Some(e);
                }
            }
            j += 1;
        }
        None
    }
}

} // verus!
