//! The scanner: a cursor over a byte buffer that yields one token per call.
use vstd::prelude::*;

use crate::keyword::{
    bucket_rules, is_ident_byte, is_ident_start, is_keyword_table,
    keyword_rule, keyword_table, lemma_buckets_ok, lemma_unique_rule, rule_matches,
    spec_pool_index,
};
use crate::kind::{TokenKind, punct_kind};
use crate::table::Table;
use crate::token::Token;

verus! {

/// The byte that [`Parser::next`] reports at end of input.
pub const NULL: u8 = 0x00;

/// A first byte that may open a two-byte operator: `= - < > | & * / % : + ^`.
pub open spec fn is_op_lead(b: u8) -> bool {
    b == 0x3d || b == 0x2d || b == 0x3c || b == 0x3e || b == 0x7c || b == 0x26 || b == 0x2a
        || b == 0x2f || b == 0x25 || b == 0x3a || b == 0x2b || b == 0x5e
}

/// The two-byte operator made of `a` then `b`, where there is one.
pub open spec fn compound_kind(a: u8, b: u8) -> Option<TokenKind> {
    if a == 0x3d && b == 0x3d {
        Some(TokenKind::EqEq)
    } else if a == 0x2d && b == 0x3e {
        Some(TokenKind::SkinnyArrow)
    } else if a == 0x3c && b == 0x3d {
        Some(TokenKind::LtEq)
    } else if a == 0x3e && b == 0x3d {
        Some(TokenKind::GtEq)
    } else if a == 0x7c && b == 0x7c {
        Some(TokenKind::PipePipe)
    } else if a == 0x26 && b == 0x26 {
        Some(TokenKind::AndAnd)
    } else if a == 0x3a && b == 0x3a {
        Some(TokenKind::Path)
    } else if b != 0x3d {
        None
    } else if a == 0x2b {
        Some(TokenKind::AddEq)
    } else if a == 0x2d {
        Some(TokenKind::SubEq)
    } else if a == 0x2a {
        Some(TokenKind::MulEq)
    } else if a == 0x2f {
        Some(TokenKind::DivEq)
    } else if a == 0x25 {
        Some(TokenKind::RemEq)
    } else if a == 0x26 {
        Some(TokenKind::AndEq)
    } else if a == 0x7c {
        Some(TokenKind::OrEq)
    } else if a == 0x5e {
        Some(TokenKind::XorEq)
    } else {
        None
    }
}

/// The kind of an operator byte that opens no two-byte operator: a bare `=` binds, any
/// other is its own punctuation kind.
pub open spec fn op_single(b: u8) -> TokenKind {
    if b == 0x3d {
        TokenKind::Bind
    } else {
        match punct_kind(b) {
            Some(k) => k,
            None => TokenKind::Unknown,
        }
    }
}

/// `input` opens with `word`, followed by its end or by a byte that cannot continue an
/// identifier.
pub open spec fn word_at(input: Seq<u8>, word: Seq<u8>) -> bool {
    word.len() <= input.len() && input.take(word.len() as int) == word && (input.len()
        == word.len() || !is_ident_byte(input[word.len() as int]))
}

/// The macro named right after an `@`: its kind and the length of its name.
pub open spec fn macro_match(input: Seq<u8>) -> Option<(TokenKind, nat)> {
    if word_at(input, seq!['m' as u8, 'a' as u8, 'i' as u8, 'n' as u8]) {
        Some((TokenKind::MainMacro, 4))
    } else if word_at(input, seq!['d' as u8, 'o' as u8, 'c' as u8]) {
        Some((TokenKind::DocMacro, 3))
    } else if word_at(
        input,
        seq!['i' as u8, 'n' as u8, 't' as u8, 'r' as u8, 'i' as u8, 'n' as u8, 's' as u8, 'i' as u8, 'c' as u8],
    ) {
        Some((TokenKind::IntrinsicMacro, 9))
    } else if word_at(input, seq!['i' as u8, 'n' as u8, 'l' as u8, 'i' as u8, 'n' as u8, 'e' as u8]) {
        Some((TokenKind::InlineMacro, 6))
    } else if word_at(
        input,
        seq!['u' as u8, 's' as u8, 'e' as u8, '-' as u8, 's' as u8, 't' as u8, 'd' as u8],
    ) {
        Some((TokenKind::UseStdMacro, 7))
    } else if word_at(input, seq!['e' as u8, 'x' as u8, 't' as u8, 'e' as u8, 'n' as u8, 'd' as u8]) {
        Some((TokenKind::ExtendMacro, 6))
    } else if word_at(input, seq!['e' as u8, 'r' as u8, 'r' as u8, 'o' as u8, 'r' as u8]) {
        Some((TokenKind::ErrorMacro, 5))
    } else if word_at(input, seq!['h' as u8, 'i' as u8, 'd' as u8, 'd' as u8, 'e' as u8, 'n' as u8]) {
        Some((TokenKind::HiddenMacro, 6))
    } else if word_at(input, seq!['l' as u8, 'a' as u8, 'n' as u8, 'g' as u8]) {
        Some((TokenKind::LangMacro, 4))
    } else if word_at(input, seq!['d' as u8, 'e' as u8, 'f' as u8, 'u' as u8, 'n' as u8]) {
        Some((TokenKind::AtDefun, 5))
    } else {
        None
    }
}

/// The index where the run of identifier bytes of `s` that starts at `i` ends.
pub open spec fn ident_end(s: Seq<u8>, i: int) -> int
    decreases s.len() - i,
{
    if 0 <= i < s.len() && is_ident_byte(s[i]) {
        ident_end(s, i + 1)
    } else {
        i
    }
}

/// The run of identifier bytes from `i` ends within `i ..= s.len()`.
pub proof fn lemma_ident_end(s: Seq<u8>, i: int)
    requires
        0 <= i <= s.len(),
    ensures
        i <= ident_end(s, i) <= s.len(),
        forall|k: int| i <= k < ident_end(s, i) ==> is_ident_byte(#[trigger] s[k]),
        ident_end(s, i) < s.len() ==> !is_ident_byte(s[ident_end(s, i)]),
    decreases s.len() - i,
{
    if i < s.len() && is_ident_byte(s[i]) {
        lemma_ident_end(s, i + 1);
    }
}

/// One token read from the front of `s`: its kind and the number of bytes it takes.
pub open spec fn scan(s: Seq<u8>) -> (TokenKind, nat) {
    if s.len() == 0 {
        (TokenKind::Eof, 0)
    } else {
        let lead = s[0];
        let rest = s.drop_first();
        if is_op_lead(lead) {
            match if rest.len() > 0 {
                compound_kind(lead, rest[0])
            } else {
                None
            } {
                Some(k) => (k, 2),
                None => (op_single(lead), 1),
            }
        } else if is_ident_start(lead) {
            match keyword_rule(lead, rest) {
                Some(r) => (r.kind, 1 + r.rest.len()),
                None => (TokenKind::Ident, (1 + ident_end(rest, 0)) as nat),
            }
        } else if lead == 0x40 {
            match macro_match(rest) {
                Some((k, n)) => (k, 1 + n),
                None => if rest.len() > 0 && rest[0] == 0x20 {
                    (TokenKind::At, 1)
                } else {
                    (TokenKind::Unknown, 1)
                },
            }
        } else {
            match punct_kind(lead) {
                Some(k) => (k, 1),
                None => (TokenKind::Unknown, 1),
            }
        }
    }
}

/// A byte that may continue an identifier.
pub fn is_ident_continue(b: u8) -> (r: bool)
    ensures
        r == is_ident_byte(b),
{
    (0x30 <= b && b <= 0x39) || (0x41 <= b && b <= 0x5a) || (0x61 <= b && b <= 0x7a) || b == 0x5f
}

/// A byte that may start an identifier.
pub fn is_ident_lead(b: u8) -> (r: bool)
    ensures
        r == is_ident_start(b),
{
    (0x41 <= b && b <= 0x5a) || (0x61 <= b && b <= 0x7a) || b == 0x5f
}

/// A byte that may open a two-byte operator.
pub fn can_be_multi_char(b: u8) -> (r: bool)
    ensures
        r == is_op_lead(b),
{
    b == 0x3d || b == 0x2d || b == 0x3c || b == 0x3e || b == 0x7c || b == 0x26 || b == 0x2a
        || b == 0x2f || b == 0x25 || b == 0x3a || b == 0x2b || b == 0x5e
}

/// The two-byte operator made of `a` then `b`, where there is one.
pub fn compound(a: u8, b: u8) -> (r: Option<TokenKind>)
    ensures
        r == compound_kind(a, b),
{
    if a == 0x3d && b == 0x3d {
        Some(TokenKind::EqEq)
    } else if a == 0x2d && b == 0x3e {
        Some(TokenKind::SkinnyArrow)
    } else if a == 0x3c && b == 0x3d {
        Some(TokenKind::LtEq)
    } else if a == 0x3e && b == 0x3d {
        Some(TokenKind::GtEq)
    } else if a == 0x7c && b == 0x7c {
        Some(TokenKind::PipePipe)
    } else if a == 0x26 && b == 0x26 {
        Some(TokenKind::AndAnd)
    } else if a == 0x3a && b == 0x3a {
        Some(TokenKind::Path)
    } else if b != 0x3d {
        None
    } else if a == 0x2b {
        Some(TokenKind::AddEq)
    } else if a == 0x2d {
        Some(TokenKind::SubEq)
    } else if a == 0x2a {
        Some(TokenKind::MulEq)
    } else if a == 0x2f {
        Some(TokenKind::DivEq)
    } else if a == 0x25 {
        Some(TokenKind::RemEq)
    } else if a == 0x26 {
        Some(TokenKind::AndEq)
    } else if a == 0x7c {
        Some(TokenKind::OrEq)
    } else if a == 0x5e {
        Some(TokenKind::XorEq)
    } else {
        None
    }
}

/// `input` opens with `word`, followed by its end or by a non-identifier byte.
pub fn starts_word(input: &[u8], word: &[u8]) -> (r: bool)
    ensures
        r == word_at(input@, word@),
{
    if word.len() > input.len() {
        return false;
    }
    let mut i: usize = 0;
    while i < word.len()
        invariant
            word@.len() <= input@.len(),
            i <= word@.len(),
            forall|k: int| 0 <= k < i ==> input@[k] == word@[k],
        decreases word@.len() - i,
    {
        if input[i] != word[i] {
            assert(input@.take(word@.len() as int)[i as int] != word@[i as int]);
            return false;
        }
        i += 1;
    }
    assert(input@.take(word@.len() as int) =~= word@);
    word.len() == input.len() || !is_ident_continue(input[word.len()])
}

/// The macro named at the front of `input`: its kind and the length of its name.
pub fn macro_name(input: &[u8]) -> (r: Option<(TokenKind, usize)>)
    ensures
        r == match macro_match(input@) {
            Some((k, n)) => Some((k, n as usize)),
            None => None,
        },
{
        if starts_word(input, &['m' as u8, 'a' as u8, 'i' as u8, 'n' as u8]) {
            Some((TokenKind::MainMacro, 4))
        } else if starts_word(input, &['d' as u8, 'o' as u8, 'c' as u8]) {
            Some((TokenKind::DocMacro, 3))
        } else if starts_word(input, &['i' as u8, 'n' as u8, 't' as u8, 'r' as u8, 'i' as u8, 'n' as u8, 's' as u8, 'i' as u8, 'c' as u8]) {
            Some((TokenKind::IntrinsicMacro, 9))
        } else if starts_word(input, &['i' as u8, 'n' as u8, 'l' as u8, 'i' as u8, 'n' as u8, 'e' as u8]) {
            Some((TokenKind::InlineMacro, 6))
        } else if starts_word(input, &['u' as u8, 's' as u8, 'e' as u8, '-' as u8, 's' as u8, 't' as u8, 'd' as u8]) {
            Some((TokenKind::UseStdMacro, 7))
        } else if starts_word(input, &['e' as u8, 'x' as u8, 't' as u8, 'e' as u8, 'n' as u8, 'd' as u8]) {
            Some((TokenKind::ExtendMacro, 6))
        } else if starts_word(input, &['e' as u8, 'r' as u8, 'r' as u8, 'o' as u8, 'r' as u8]) {
            Some((TokenKind::ErrorMacro, 5))
        } else if starts_word(input, &['h' as u8, 'i' as u8, 'd' as u8, 'd' as u8, 'e' as u8, 'n' as u8]) {
            Some((TokenKind::HiddenMacro, 6))
        } else if starts_word(input, &['l' as u8, 'a' as u8, 'n' as u8, 'g' as u8]) {
            Some((TokenKind::LangMacro, 4))
        } else if starts_word(input, &['d' as u8, 'e' as u8, 'f' as u8, 'u' as u8, 'n' as u8]) {
            Some((TokenKind::AtDefun, 5))
        } else {
            None
        }
}

/// A reserved word followed by one of its ending bytes is read as one token of its kind,
/// and the scanner stops right before the ending byte.
pub proof fn lemma_keyword_token(lead: u8, j: int, k: int, tail: Seq<u8>)
    requires
        spec_pool_index(lead) is Some,
        0 <= j < bucket_rules(spec_pool_index(lead)->0 as int).len(),
        0 <= k < bucket_rules(spec_pool_index(lead)->0 as int)[j].ends.len(),
    ensures
        ({
            let r = bucket_rules(spec_pool_index(lead)->0 as int)[j];
            let s = seq![lead] + r.rest + seq![r.ends[k]] + tail;
            &&& scan(s) == (r.kind, 1 + r.rest.len())
            &&& s.skip(1 + r.rest.len() as int)[0] == r.ends[k]
        }),
{
    let g = spec_pool_index(lead)->0 as int;
    let rules = bucket_rules(g);
    let r = rules[j];
    let s = seq![lead] + r.rest + seq![r.ends[k]] + tail;
    let rest = s.drop_first();
    assert(rest =~= r.rest + seq![r.ends[k]] + tail);
    assert(rest.take(r.rest.len() as int) =~= r.rest);
    assert(rest[r.rest.len() as int] == r.ends[k]);
    assert(rule_matches(rules[j], rest));
    lemma_buckets_ok(g);
    let j2 = choose|j2: int| 0 <= j2 < rules.len() && rule_matches(#[trigger] rules[j2], rest);
    lemma_unique_rule(rules, rest, j, j2);
    assert(s.skip(1 + r.rest.len() as int)[0] == s[1 + r.rest.len() as int]);
}

/// A reserved word followed by a byte that continues an identifier is no reserved word:
/// the scanner reads the whole run as one identifier. This holds unless the word and that
/// byte begin a longer reserved word of the same bucket (as `extend` and `s` begin
/// `extends`), which the condition leaves out.
pub proof fn lemma_keyword_prefix_ident(lead: u8, j: int, c: u8, tail: Seq<u8>)
    requires
        spec_pool_index(lead) is Some,
        0 <= j < bucket_rules(spec_pool_index(lead)->0 as int).len(),
        is_ident_byte(c),
        ({
            let rules = bucket_rules(spec_pool_index(lead)->0 as int);
            forall|j2: int|
                0 <= j2 < rules.len() ==> !(#[trigger] rules[j2].rest.len() > rules[j].rest.len()
                    && rules[j2].rest.take(rules[j].rest.len() + 1int) == rules[j].rest.push(c))
        }),
    ensures
        ({
            let r = bucket_rules(spec_pool_index(lead)->0 as int)[j];
            let s = seq![lead] + r.rest + seq![c] + tail;
            &&& scan(s).0 != r.kind
            &&& scan(s) == (TokenKind::Ident, ident_end(s, 0) as nat)
            &&& ident_end(s, 0) >= r.rest.len() + 2
        }),
{
    let g = spec_pool_index(lead)->0 as int;
    let rules = bucket_rules(g);
    let r = rules[j];
    let s = seq![lead] + r.rest + seq![c] + tail;
    let rest = s.drop_first();
    let lr = r.rest.len() as int;
    lemma_buckets_ok(g);
    assert(rest =~= r.rest + seq![c] + tail);
    assert forall|j2: int| 0 <= j2 < rules.len() implies !rule_matches(#[trigger] rules[j2], rest) by {
        let a = rules[j2];
        let la = a.rest.len() as int;
        if rule_matches(a, rest) {
            let t = rest[la];
            let ka = choose|x: int| 0 <= x < a.ends.len() && a.ends[x] == t;
            assert(!is_ident_byte(a.ends[ka]));
            if la < lr {
                assert(rest[la] == r.rest[la]);
                assert(is_ident_byte(r.rest[la]));
            } else if la == lr {
                assert(rest.take(lr) =~= r.rest);
                if j2 != j {
                    assert(rules[j2].rest != rules[j].rest);
                }
                assert(rest[lr] == c);
            } else {
                assert(a.rest.take(lr + 1) =~= r.rest.push(c)) by {
                    assert forall|x: int| 0 <= x < lr + 1 implies a.rest[x] == r.rest.push(c)[x] by {
                        assert(rest.take(la)[x] == rest[x]);
                    }
                }
            }
        }
    }
    assert(keyword_rule(lead, rest) is None);
    assert(is_ident_start(lead));
    // The run of identifier bytes covers the word and `c`.
    assert forall|x: int| 1 <= x < lr + 2 implies is_ident_byte(#[trigger] s[x]) by {
        if x <= lr {
            assert(s[x] == r.rest[x - 1]);
        } else {
            assert(s[x] == c);
        }
    }
    lemma_ident_run_shift(s, lr + 2);
    lemma_ident_end(rest, 0);
    lemma_ident_end(s, 0);
}

/// Where `s` opens with a lead byte and a run of identifier bytes up to `m`, the run
/// read after the lead ends where the run of the whole ends, one byte earlier.
proof fn lemma_ident_run_shift(s: Seq<u8>, m: int)
    requires
        1 <= m <= s.len(),
        is_ident_byte(s[0]),
        forall|x: int| 1 <= x < m ==> is_ident_byte(#[trigger] s[x]),
    ensures
        ident_end(s, 0) == 1 + ident_end(s.drop_first(), 0),
        ident_end(s, 0) >= m,
{
    lemma_ident_end_shift(s, 1);
    lemma_ident_end_from(s, 0, m);
}

proof fn lemma_ident_end_shift(s: Seq<u8>, i: int)
    requires
        1 <= i <= s.len(),
    ensures
        ident_end(s, i) == 1 + ident_end(s.drop_first(), i - 1),
    decreases s.len() - i,
{
    if i < s.len() && is_ident_byte(s[i]) {
        lemma_ident_end_shift(s, i + 1);
    }
}

proof fn lemma_ident_end_from(s: Seq<u8>, i: int, m: int)
    requires
        0 <= i <= m <= s.len(),
        forall|x: int| i <= x < m ==> is_ident_byte(#[trigger] s[x]),
    ensures
        ident_end(s, i) >= m,
    decreases m - i,
{
    lemma_ident_end(s, i);
    if i < m {
        lemma_ident_end_from(s, i + 1, m);
    }
}

/// A punctuation byte that no reserved word, macro or two-byte operator claims is read as
/// one token whose kind's tag is that byte.
pub proof fn lemma_punct_token(s: Seq<u8>)
    requires
        s.len() >= 1,
        punct_kind(s[0]) is Some,
        !is_ident_start(s[0]),
        s[0] != 0x40,
        !(is_op_lead(s[0]) && s.len() > 1 && compound_kind(s[0], s[1]) is Some),
    ensures
        scan(s).0.spec_tag() == s[0],
        scan(s).1 == 1,
{
    crate::kind::lemma_punct_tag(s[0]);
    assert(s.drop_first().len() > 0 ==> s.drop_first()[0] == s[1]);
}

/// Once the input is used up, reading a token yields end of input, consumes nothing, and
/// leaves the scanner as it was, so every later read does the same.
pub proof fn lemma_end_of_input(s: Seq<u8>)
    requires
        s.len() == 0,
    ensures
        scan(s) == (TokenKind::Eof, 0nat),
        s.skip(0) == s,
{
    assert(s.skip(0) =~= s);
}

/// A cursor over a borrowed byte buffer.
struct Iter<'sess> {
    src: &'sess [u8],
    at: usize,
}

impl<'sess> Iter<'sess> {
    fn as_slice(&self) -> (r: &'sess [u8])
        requires
            self.at <= self.src@.len(),
        ensures
            r@ == self.src@.skip(self.at as int),
    {
        vstd::slice::slice_subrange(self.src, self.at, self.src.len())
    }

    fn next(&mut self) -> (r: Option<u8>)
        requires
            old(self).at <= old(self).src@.len(),
        ensures
            final(self).src == old(self).src,
            old(self).at < old(self).src@.len() ==> r == Some(old(self).src@[old(self).at as int])
                && final(self).at == old(self).at + 1,
            old(self).at == old(self).src@.len() ==> r is None && final(self).at == old(self).at,
    {
        if self.at < self.src.len() {
            let b = self.src[self.at];
            self.at = self.at + 1;
            Some(b)
        } else {
            None
        }
    }
}

/// The scanner. Its position counts the bytes consumed so far; a token's offset is the
/// position just after its first byte, that is the 1-based index of that byte.
pub struct Parser<'sess> {
    inner: Iter<'sess>,
    pos: u32,
    table: Table,
}

impl<'sess> Parser<'sess> {
    /// The bytes not yet consumed.
    pub closed spec fn rest(&self) -> Seq<u8> {
        self.inner.src@.skip(self.inner.at as int)
    }

    /// The number of bytes consumed so far.
    pub closed spec fn position(&self) -> nat {
        self.pos as nat
    }

    /// The cursor lies within the buffer, the position counts it, and the table holds the
    /// reserved words.
    pub closed spec fn wf(&self) -> bool {
        &&& self.inner.at <= self.inner.src@.len()
        &&& self.inner.src@.len() <= u32::MAX
        &&& self.pos == self.inner.at
        &&& is_keyword_table(self.table)
    }

    /// A scanner at the start of `src`. It builds its own table of reserved words once,
    /// here, and only reads it afterwards.
    pub fn new(src: &'sess [u8]) -> (r: Parser<'sess>)
        requires
            src@.len() <= u32::MAX,
        ensures
            r.wf(),
            r.rest() == src@,
            r.position() == 0,
    {
        let r = Parser { inner: Iter { src, at: 0 }, pos: 0, table: keyword_table() };
        assert(r.rest() =~= src@);
        r
    }

    /// Consumes and returns the next byte, or `None` at end of input.
    pub fn bump(&mut self) -> (r: Option<u8>)
        requires
            old(self).wf(),
        ensures
            final(self).wf(),
            old(self).rest().len() == 0 ==> r is None && final(self).rest() == old(self).rest()
                && final(self).position() == old(self).position(),
            old(self).rest().len() > 0 ==> r == Some(old(self).rest()[0]) && final(self).rest()
                == old(self).rest().drop_first() && final(self).position() == old(
                self,
            ).position() + 1,
    {
        let v = self.inner.next();
        match v {
            Some(b) => {
                self.pos = self.pos + 1;
                assert(self.rest() =~= old(self).rest().drop_first());
                Some(b)
            },
            None => None,
        }
    }

    /// The bytes not yet consumed.
    pub fn as_slice(&self) -> (r: &[u8])
        requires
            self.wf(),
        ensures
            r@ == self.rest(),
    {
        self.inner.as_slice()
    }

    /// The first `to` bytes not yet consumed.
    pub fn slice(&self, to: usize) -> (r: &[u8])
        requires
            self.wf(),
            to <= self.rest().len(),
        ensures
            r@ == self.rest().take(to as int),
    {
        vstd::slice::slice_subrange(self.as_slice(), 0, to)
    }

    /// The table of reserved words this scanner reads.
    pub fn keywords(&self) -> (r: &Table)
        requires
            self.wf(),
        ensures
            is_keyword_table(*r),
    {
        &self.table
    }

    /// Consumes `n` bytes.
    fn advance(&mut self, n: usize)
        requires
            old(self).wf(),
            n <= old(self).rest().len(),
        ensures
            final(self).wf(),
            final(self).rest() == old(self).rest().skip(n as int),
            final(self).position() == old(self).position() + n,
    {
        self.inner.at = self.inner.at + n;
        self.pos = self.pos + n as u32;
        assert(self.rest() =~= old(self).rest().skip(n as int));
    }

    /// Reads the next token and moves past it. At end of input it returns an
    /// end-of-input token at the current position and consumes nothing.
    pub fn next_token(&mut self) -> (r: Token)
        requires
            old(self).wf(),
        ensures
            final(self).wf(),
            ({
                let (k, n) = scan(old(self).rest());
                &&& r.kind == k
                &&& final(self).rest() == old(self).rest().skip(n as int)
                &&& final(self).position() == old(self).position() + n
                &&& r.spec_offset() == if n == 0 {
                    old(self).position()
                } else {
                    old(self).position() + 1
                }
            }),
    {
        let ghost s = self.rest();
        let next = match self.bump() {
            Some(b) => b,
            None => {
                return Token::eof(self.pos);
            },
        };
        let pos = self.pos;
        let ghost rest = s.drop_first();
        assert(self.rest() == rest);
        let kind = if can_be_multi_char(next) {
            match self.handle_maybe_multi_char(next) {
                Some(k) => k,
                None => if next == 0x3d {
                    TokenKind::Bind
                } else {
                    match TokenKind::from_byte(next) {
                        Some(k) => k,
                        None => TokenKind::Unknown,
                    }
                },
            }
        } else if is_ident_lead(next) {
            match crate::keyword::matches(next, self) {
                Some((k, n)) => {
                    self.advance(n);
                    k
                },
                None => self.handle_ident(),
            }
        } else if next == 0x40 {
            let peek = self.next();
            match self.handle_macro() {
                Some(k) => k,
                None => if peek == 0x20 {
                    TokenKind::At
                } else {
                    TokenKind::Unknown
                },
            }
        } else {
            match TokenKind::from_byte(next) {
                Some(k) => k,
                None => TokenKind::Unknown,
            }
        };
        proof {
            let n = scan(s).1;
            assert(next == s[0]);
            assert(kind == scan(s).0);
            lemma_ident_end(rest, 0);
            assert(n >= 1);
            assert(self.rest() =~= rest.skip(n - 1));
            assert(rest.skip(n - 1) =~= s.skip(n as int));
        }
        Token::new(kind, pos)
    }

    /// Reads the second byte of a two-byte operator opened by `lead`, consuming it only
    /// where the two make an operator.
    fn handle_maybe_multi_char(&mut self, lead: u8) -> (r: Option<TokenKind>)
        requires
            old(self).wf(),
        ensures
            final(self).wf(),
            r == (if old(self).rest().len() > 0 {
                compound_kind(lead, old(self).rest()[0])
            } else {
                None
            }),
            r is Some ==> final(self).rest() == old(self).rest().skip(1) && final(self).position()
                == old(self).position() + 1,
            r is None ==> final(self).rest() == old(self).rest() && final(self).position() == old(
                self,
            ).position(),
    {
        let found = compound(lead, self.next());
        if found.is_some() {
            self.advance(1);
        }
        found
    }

    /// Reads a macro name after an `@`, consuming it where one is found.
    fn handle_macro(&mut self) -> (r: Option<TokenKind>)
        requires
            old(self).wf(),
        ensures
            final(self).wf(),
            r == (match macro_match(old(self).rest()) {
                Some((k, n)) => Some(k),
                None => None,
            }),
            match macro_match(old(self).rest()) {
                Some((k, n)) => final(self).rest() == old(self).rest().skip(n as int)
                    && final(self).position() == old(self).position() + n,
                None => final(self).rest() == old(self).rest() && final(self).position() == old(
                    self,
                ).position(),
            },
    {
        match macro_name(self.as_slice()) {
            Some((k, n)) => {
                self.advance(n);
                Some(k)
            },
            None => None,
        }
    }

    /// Consumes the rest of an identifier whose first byte is already consumed.
    fn handle_ident(&mut self) -> (r: TokenKind)
        requires
            old(self).wf(),
        ensures
            final(self).wf(),
            r == TokenKind::Ident,
            final(self).rest() == old(self).rest().skip(ident_end(old(self).rest(), 0)),
            final(self).position() == old(self).position() + ident_end(old(self).rest(), 0),
    {
        let input = self.as_slice();
        let mut n: usize = 0;
        while n < input.len() && is_ident_continue(input[n])
            invariant
                n <= input@.len(),
                ident_end(input@, 0) == ident_end(input@, n as int),
            decreases input@.len() - n,
        {
            n += 1;
        }
        self.advance(n);
        TokenKind::Ident
    }

    /// The next byte without consuming it, or [`NULL`] at end of input.
    pub fn next(&self) -> (r: u8)
        requires
            self.wf(),
        ensures
            r == if self.rest().len() > 0 {
                self.rest()[0]
            } else {
                NULL
            },
    {
        let mut iter = Iter { src: self.inner.src, at: self.inner.at };
        match iter.next() {
            Some(b) => b,
            None => NULL,
        }
    }
}

} // verus!
