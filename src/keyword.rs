//! The reserved words: their rules, the bucket selector and the built table.
use vstd::prelude::*;

use crate::encoding::{encode_spec, lemma_encode_injective};
use crate::kind::TokenKind;
use crate::parser::Parser;
use crate::table::{Entry, Table, entry_matches, first_match, lemma_first_match};

verus! {

/// A reserved word, seen after its first byte: the bytes that remain, the bytes that may
/// follow it, and its kind.
pub struct KeywordRule {
    pub rest: Seq<u8>,
    pub ends: Seq<u8>,
    pub kind: TokenKind,
}

/// An ASCII letter, digit or underscore: a byte that may continue an identifier.
pub open spec fn is_ident_byte(b: u8) -> bool {
    (0x30 <= b <= 0x39) || (0x41 <= b <= 0x5a) || (0x61 <= b <= 0x7a) || b == 0x5f
}

/// An ASCII letter or underscore: a byte that may start an identifier.
pub open spec fn is_ident_start(b: u8) -> bool {
    (0x41 <= b <= 0x5a) || (0x61 <= b <= 0x7a) || b == 0x5f
}

/// The bucket of reserved words that start with byte `b`.
pub open spec fn spec_pool_index(b: u8) -> Option<usize> {
    match b {
        0x69 => Some(0usize),
        0x64 => Some(1usize),
        0x63 => Some(2usize),
        0x6f => Some(3usize),
        0x65 => Some(4usize),
        0x74 => Some(5usize),
        0x70 => Some(6usize),
        0x6c => Some(7usize),
        0x66 => Some(8usize),
        0x77 => Some(9usize),
        0x73 => Some(10usize),
        0x6d => Some(11usize),
        0x61 => Some(12usize),
        0x62 => Some(13usize),
        0x75 => Some(14usize),
        0x54 => Some(15usize),
        _ => None,
    }
}

/// The bucket of reserved words that start with byte `b`, or `None` where no reserved
/// word starts with it. A dense match on the byte, compiled to a jump table.
pub fn pool_index(b: u8) -> (r: Option<usize>)
    ensures
        r == spec_pool_index(b),
{
    match b {
        0x69 => Some(0),  // `i`
        0x64 => Some(1),  // `d`
        0x63 => Some(2),  // `c`
        0x6f => Some(3),  // `o`
        0x65 => Some(4),  // `e`
        0x74 => Some(5),  // `t`
        0x70 => Some(6),  // `p`
        0x6c => Some(7),  // `l`
        0x66 => Some(8),  // `f`
        0x77 => Some(9),  // `w`
        0x73 => Some(10),  // `s`
        0x6d => Some(11),  // `m`
        0x61 => Some(12),  // `a`
        0x62 => Some(13),  // `b`
        0x75 => Some(14),  // `u`
        0x54 => Some(15),  // `T`
        _ => None,
    }
}

/// The rules of bucket `g`, in the order they are tried.
#[verifier::opaque]
pub open spec fn bucket_rules(g: int) -> Seq<KeywordRule> {
    if g == 0 {
        seq![
            KeywordRule {
                rest: seq!['m' as u8, 'p' as u8, 'o' as u8, 'r' as u8, 't' as u8],
                ends: seq![' ' as u8],
                kind: TokenKind::Import,
            },
            KeywordRule {
                rest: seq!['f' as u8],
                ends: seq![' ' as u8],
                kind: TokenKind::IfKw,
            },
            KeywordRule {
                rest: seq!['n' as u8, 't' as u8, '8' as u8],
                ends: seq![')' as u8, '{' as u8, ',' as u8, '>' as u8, ' ' as u8, '.' as u8],
                kind: TokenKind::Int8,
            },
            KeywordRule {
                rest: seq!['n' as u8, 't' as u8, '1' as u8, '6' as u8],
                ends: seq![')' as u8, '{' as u8, ',' as u8, '>' as u8, ' ' as u8, '.' as u8],
                kind: TokenKind::Int16,
            },
            KeywordRule {
                rest: seq!['n' as u8, 't' as u8, '3' as u8, '2' as u8],
                ends: seq![')' as u8, '{' as u8, ',' as u8, '>' as u8, ' ' as u8, '.' as u8],
                kind: TokenKind::Int32,
            },
            KeywordRule {
                rest: seq!['n' as u8, 't' as u8, '6' as u8, '4' as u8],
                ends: seq![')' as u8, '{' as u8, ',' as u8, '>' as u8, ' ' as u8, '.' as u8],
                kind: TokenKind::Int64,
            },
            KeywordRule {
                rest: seq!['s' as u8, 'i' as u8, 'z' as u8, 'e' as u8],
                ends: seq![')' as u8, '{' as u8, ',' as u8, '>' as u8, ' ' as u8, '.' as u8],
                kind: TokenKind::Isize,
            },
        ]
    } else if g == 1 {
        seq![
            KeywordRule {
                rest: seq!['e' as u8, 'f' as u8, 'u' as u8, 'n' as u8],
                ends: seq![' ' as u8],
                kind: TokenKind::Defun,
            },
        ]
    } else if g == 2 {
        seq![
            KeywordRule {
                rest: seq!['o' as u8, 'm' as u8, 'p' as u8, 'o' as u8, 'n' as u8, 'e' as u8, 'n' as u8, 't' as u8],
                ends: seq![' ' as u8, '{' as u8],
                kind: TokenKind::Component,
            },
            KeywordRule {
                rest: seq!['a' as u8, 's' as u8, 'e' as u8],
                ends: seq![' ' as u8, ':' as u8],
                kind: TokenKind::CaseKw,
            },
            KeywordRule {
                rest: seq!['h' as u8, 'a' as u8, 'r' as u8],
                ends: seq![' ' as u8, '{' as u8, ',' as u8, '>' as u8, ')' as u8, '.' as u8],
                kind: TokenKind::Char,
            },
        ]
    } else if g == 3 {
        seq![
            KeywordRule {
                rest: seq!['b' as u8, 'j' as u8],
                ends: seq![' ' as u8, '{' as u8],
                kind: TokenKind::Obj,
            },
        ]
    } else if g == 4 {
        seq![
            KeywordRule {
                rest: seq!['x' as u8, 't' as u8, 'e' as u8, 'n' as u8, 'd' as u8, 's' as u8],
                ends: seq![' ' as u8],
                kind: TokenKind::Extends,
            },
            KeywordRule {
                rest: seq!['x' as u8, 't' as u8, 'e' as u8, 'n' as u8, 'd' as u8],
                ends: seq![' ' as u8],
                kind: TokenKind::Extend,
            },
            KeywordRule {
                rest: seq!['x' as u8, 't' as u8, 'e' as u8, 'r' as u8, 'n' as u8],
                ends: seq![' ' as u8, '"' as u8],
                kind: TokenKind::ExternKw,
            },
            KeywordRule {
                rest: seq!['n' as u8, 'u' as u8, 'm' as u8],
                ends: seq![' ' as u8, '{' as u8],
                kind: TokenKind::Enum,
            },
        ]
    } else if g == 5 {
        seq![
            KeywordRule {
                rest: seq!['h' as u8, 'i' as u8, 's' as u8],
                ends: seq![' ' as u8],
                kind: TokenKind::ThisVar,
            },
        ]
    } else if g == 6 {
        seq![
            KeywordRule {
                rest: seq!['u' as u8, 'b' as u8],
                ends: seq![' ' as u8, '(' as u8],
                kind: TokenKind::Pub,
            },
            KeywordRule {
                rest: seq!['r' as u8, 'i' as u8, 'v' as u8],
                ends: seq![' ' as u8, '(' as u8],
                kind: TokenKind::Priv,
            },
            KeywordRule {
                rest: seq!['a' as u8, 'c' as u8, 'k' as u8],
                ends: seq![' ' as u8, ')' as u8],
                kind: TokenKind::PackKw,
            },
        ]
    } else if g == 7 {
        seq![
            KeywordRule {
                rest: seq!['e' as u8, 't' as u8],
                ends: seq![' ' as u8],
                kind: TokenKind::LetKw,
            },
            KeywordRule {
                rest: seq!['o' as u8, 'o' as u8, 'p' as u8],
                ends: seq![' ' as u8, '{' as u8],
                kind: TokenKind::LoopKw,
            },
        ]
    } else if g == 8 {
        seq![
            KeywordRule {
                rest: seq!['o' as u8, 'r' as u8],
                ends: seq![' ' as u8, '(' as u8],
                kind: TokenKind::ForKw,
            },
            KeywordRule {
                rest: seq!['l' as u8, 'o' as u8, 'a' as u8, 't' as u8, '3' as u8, '2' as u8],
                ends: seq![' ' as u8, ')' as u8, '{' as u8, ',' as u8, '>' as u8, '.' as u8],
                kind: TokenKind::Float32,
            },
            KeywordRule {
                rest: seq!['l' as u8, 'o' as u8, 'a' as u8, 't' as u8, '6' as u8, '4' as u8],
                ends: seq![' ' as u8, ')' as u8, '{' as u8, ',' as u8, '>' as u8, '.' as u8],
                kind: TokenKind::Float64,
            },
        ]
    } else if g == 9 {
        seq![
            KeywordRule {
                rest: seq!['h' as u8, 'i' as u8, 'l' as u8, 'e' as u8],
                ends: seq![' ' as u8, '(' as u8],
                kind: TokenKind::WhileKw,
            },
        ]
    } else if g == 10 {
        seq![
            KeywordRule {
                rest: seq!['w' as u8, 'i' as u8, 't' as u8, 'c' as u8, 'h' as u8],
                ends: seq![' ' as u8],
                kind: TokenKind::SwitchKw,
            },
            KeywordRule {
                rest: seq!['t' as u8, 'r' as u8],
                ends: seq![' ' as u8, ')' as u8, '{' as u8, ',' as u8, '>' as u8, '.' as u8],
                kind: TokenKind::Str,
            },
        ]
    } else if g == 11 {
        seq![
            KeywordRule {
                rest: seq!['o' as u8, 'v' as u8, 'e' as u8],
                ends: seq![' ' as u8],
                kind: TokenKind::MoveKw,
            },
            KeywordRule {
                rest: seq!['u' as u8, 't' as u8],
                ends: seq![' ' as u8],
                kind: TokenKind::MutKw,
            },
        ]
    } else if g == 12 {
        seq![
            KeywordRule {
                rest: seq!['n' as u8, 'y' as u8],
                ends: seq![' ' as u8, ')' as u8, '{' as u8, ',' as u8, '>' as u8, '.' as u8],
                kind: TokenKind::Any,
            },
        ]
    } else if g == 13 {
        seq![
            KeywordRule {
                rest: seq!['o' as u8, 'o' as u8, 'l' as u8],
                ends: seq![' ' as u8, ')' as u8, '{' as u8, ',' as u8, '>' as u8, '.' as u8],
                kind: TokenKind::Bool,
            },
        ]
    } else if g == 14 {
        seq![
            KeywordRule {
                rest: seq!['n' as u8, 'i' as u8, 'o' as u8, 'n' as u8],
                ends: seq![' ' as u8, '{' as u8],
                kind: TokenKind::Union,
            },
            KeywordRule {
                rest: seq!['i' as u8, 'n' as u8, 't' as u8, '8' as u8],
                ends: seq![')' as u8, '{' as u8, ',' as u8, '>' as u8, ' ' as u8, '.' as u8],
                kind: TokenKind::Uint8,
            },
            KeywordRule {
                rest: seq!['i' as u8, 'n' as u8, 't' as u8, '1' as u8, '6' as u8],
                ends: seq![')' as u8, '{' as u8, ',' as u8, '>' as u8, ' ' as u8, '.' as u8],
                kind: TokenKind::Uint16,
            },
            KeywordRule {
                rest: seq!['i' as u8, 'n' as u8, 't' as u8, '3' as u8, '2' as u8],
                ends: seq![')' as u8, '{' as u8, ',' as u8, '>' as u8, ' ' as u8, '.' as u8],
                kind: TokenKind::Uint32,
            },
            KeywordRule {
                rest: seq!['i' as u8, 'n' as u8, 't' as u8, '6' as u8, '4' as u8],
                ends: seq![')' as u8, '{' as u8, ',' as u8, '>' as u8, ' ' as u8, '.' as u8],
                kind: TokenKind::Uint64,
            },
            KeywordRule {
                rest: seq!['s' as u8, 'i' as u8, 'z' as u8, 'e' as u8],
                ends: seq![')' as u8, '{' as u8, ',' as u8, '>' as u8, ' ' as u8, '.' as u8],
                kind: TokenKind::Usize,
            },
        ]
    } else if g == 15 {
        seq![
            KeywordRule {
                rest: seq!['h' as u8, 'i' as u8, 's' as u8],
                ends: seq![')' as u8, '{' as u8, ',' as u8, '>' as u8, ' ' as u8, '.' as u8],
                kind: TokenKind::ThisTy,
            },
        ]
    } else {
        seq![]
    }
}

/// `r` opens `input`: its remaining bytes, then one of its ending bytes.
pub open spec fn rule_matches(r: KeywordRule, input: Seq<u8>) -> bool {
    r.rest.len() < input.len() && input.take(r.rest.len() as int) == r.rest && r.ends.contains(
        input[r.rest.len() as int],
    )
}

/// The reserved word that `input` opens, `input` being what follows the first byte
/// `lead`.
pub open spec fn keyword_rule(lead: u8, input: Seq<u8>) -> Option<KeywordRule> {
    match spec_pool_index(lead) {
        Some(g) => {
            let rules = bucket_rules(g as int);
            if exists|j: int| 0 <= j < rules.len() && rule_matches(#[trigger] rules[j], input) {
                let j = choose|j: int| 0 <= j < rules.len() && rule_matches(#[trigger] rules[j], input);
                Some(rules[j])
            } else {
                None
            }
        },
        None => None,
    }
}

/// A bucket whose matches are unambiguous: short words spelled with identifier bytes,
/// ended by bytes that are not, and no two alike.
pub open spec fn bucket_ok(rules: Seq<KeywordRule>) -> bool {
    &&& forall|j: int|
        0 <= j < rules.len() ==> #[trigger] rules[j].rest.len() <= 15 && rules[j].kind
            != TokenKind::Ident
    &&& forall|j: int, k: int|
        0 <= j < rules.len() && 0 <= k < rules[j].rest.len() ==> is_ident_byte(
            #[trigger] rules[j].rest[k],
        )
    &&& forall|j: int, k: int|
        0 <= j < rules.len() && 0 <= k < rules[j].ends.len() ==> !is_ident_byte(
            #[trigger] rules[j].ends[k],
        )
    &&& forall|j1: int, j2: int|
        0 <= j1 < rules.len() && 0 <= j2 < rules.len() && j1 != j2 ==> #[trigger] rules[j1].rest
            != #[trigger] rules[j2].rest
}

/// In a bucket without ambiguity, at most one rule opens any input.
pub proof fn lemma_unique_rule(rules: Seq<KeywordRule>, input: Seq<u8>, j1: int, j2: int)
    requires
        bucket_ok(rules),
        0 <= j1 < rules.len(),
        0 <= j2 < rules.len(),
        rule_matches(rules[j1], input),
        rule_matches(rules[j2], input),
    ensures
        j1 == j2,
{
    let (a, b) = (rules[j1], rules[j2]);
    let (la, lb) = (a.rest.len() as int, b.rest.len() as int);
    if la < lb {
        let t = input[la];
        assert(a.rest.len() < input.len());
        let ka = choose|k: int| 0 <= k < a.ends.len() && a.ends[k] == t;
        assert(input.take(lb)[la] == t);
        assert(is_ident_byte(b.rest[la]));
        assert(!is_ident_byte(a.ends[ka]));
    } else if lb < la {
        let t = input[lb];
        let kb = choose|k: int| 0 <= k < b.ends.len() && b.ends[k] == t;
        assert(input.take(la)[lb] == t);
        assert(is_ident_byte(a.rest[lb]));
        assert(!is_ident_byte(b.ends[kb]));
    } else {
        assert(a.rest == b.rest);
    }
}

/// Two sequences that differ in length, or at index `k`, differ.
proof fn lemma_differ(a: Seq<u8>, b: Seq<u8>, k: int)
    requires
        a.len() != b.len() || (0 <= k < a.len() && k < b.len() && a[k] != b[k]),
    ensures
        a != b,
{
}

proof fn lemma_bucket_ok_0()
    ensures
        bucket_ok(bucket_rules(0)),
{
    reveal(bucket_rules);
    let rs = bucket_rules(0);
    assert forall|j: int| 0 <= j < rs.len() implies #[trigger] rs[j].rest.len() <= 15 && rs[j].kind != TokenKind::Ident && (forall|
        k: int,
    | 0 <= k < rs[j].rest.len() ==> is_ident_byte(#[trigger] rs[j].rest[k])) && (forall|k: int|
        0 <= k < rs[j].ends.len() ==> !is_ident_byte(#[trigger] rs[j].ends[k])) by {
        assert(j == 0 || j == 1 || j == 2 || j == 3 || j == 4 || j == 5 || j == 6);
    }
    assert forall|j1: int, j2: int|
        0 <= j1 < rs.len() && 0 <= j2 < rs.len() && j1 != j2 implies #[trigger] rs[j1].rest
        != #[trigger] rs[j2].rest by {
        if j1 == 0 && j2 == 1 {
            lemma_differ(rs[0].rest, rs[1].rest, 0);
        } else if j1 == 0 && j2 == 2 {
            lemma_differ(rs[0].rest, rs[2].rest, 0);
        } else if j1 == 0 && j2 == 3 {
            lemma_differ(rs[0].rest, rs[3].rest, 0);
        } else if j1 == 0 && j2 == 4 {
            lemma_differ(rs[0].rest, rs[4].rest, 0);
        } else if j1 == 0 && j2 == 5 {
            lemma_differ(rs[0].rest, rs[5].rest, 0);
        } else if j1 == 0 && j2 == 6 {
            lemma_differ(rs[0].rest, rs[6].rest, 0);
        } else if j1 == 1 && j2 == 0 {
            lemma_differ(rs[1].rest, rs[0].rest, 0);
        } else if j1 == 1 && j2 == 2 {
            lemma_differ(rs[1].rest, rs[2].rest, 0);
        } else if j1 == 1 && j2 == 3 {
            lemma_differ(rs[1].rest, rs[3].rest, 0);
        } else if j1 == 1 && j2 == 4 {
            lemma_differ(rs[1].rest, rs[4].rest, 0);
        } else if j1 == 1 && j2 == 5 {
            lemma_differ(rs[1].rest, rs[5].rest, 0);
        } else if j1 == 1 && j2 == 6 {
            lemma_differ(rs[1].rest, rs[6].rest, 0);
        } else if j1 == 2 && j2 == 0 {
            lemma_differ(rs[2].rest, rs[0].rest, 0);
        } else if j1 == 2 && j2 == 1 {
            lemma_differ(rs[2].rest, rs[1].rest, 0);
        } else if j1 == 2 && j2 == 3 {
            lemma_differ(rs[2].rest, rs[3].rest, 0);
        } else if j1 == 2 && j2 == 4 {
            lemma_differ(rs[2].rest, rs[4].rest, 0);
        } else if j1 == 2 && j2 == 5 {
            lemma_differ(rs[2].rest, rs[5].rest, 0);
        } else if j1 == 2 && j2 == 6 {
            lemma_differ(rs[2].rest, rs[6].rest, 0);
        } else if j1 == 3 && j2 == 0 {
            lemma_differ(rs[3].rest, rs[0].rest, 0);
        } else if j1 == 3 && j2 == 1 {
            lemma_differ(rs[3].rest, rs[1].rest, 0);
        } else if j1 == 3 && j2 == 2 {
            lemma_differ(rs[3].rest, rs[2].rest, 0);
        } else if j1 == 3 && j2 == 4 {
            lemma_differ(rs[3].rest, rs[4].rest, 2);
        } else if j1 == 3 && j2 == 5 {
            lemma_differ(rs[3].rest, rs[5].rest, 2);
        } else if j1 == 3 && j2 == 6 {
            lemma_differ(rs[3].rest, rs[6].rest, 0);
        } else if j1 == 4 && j2 == 0 {
            lemma_differ(rs[4].rest, rs[0].rest, 0);
        } else if j1 == 4 && j2 == 1 {
            lemma_differ(rs[4].rest, rs[1].rest, 0);
        } else if j1 == 4 && j2 == 2 {
            lemma_differ(rs[4].rest, rs[2].rest, 0);
        } else if j1 == 4 && j2 == 3 {
            lemma_differ(rs[4].rest, rs[3].rest, 2);
        } else if j1 == 4 && j2 == 5 {
            lemma_differ(rs[4].rest, rs[5].rest, 2);
        } else if j1 == 4 && j2 == 6 {
            lemma_differ(rs[4].rest, rs[6].rest, 0);
        } else if j1 == 5 && j2 == 0 {
            lemma_differ(rs[5].rest, rs[0].rest, 0);
        } else if j1 == 5 && j2 == 1 {
            lemma_differ(rs[5].rest, rs[1].rest, 0);
        } else if j1 == 5 && j2 == 2 {
            lemma_differ(rs[5].rest, rs[2].rest, 0);
        } else if j1 == 5 && j2 == 3 {
            lemma_differ(rs[5].rest, rs[3].rest, 2);
        } else if j1 == 5 && j2 == 4 {
            lemma_differ(rs[5].rest, rs[4].rest, 2);
        } else if j1 == 5 && j2 == 6 {
            lemma_differ(rs[5].rest, rs[6].rest, 0);
        } else if j1 == 6 && j2 == 0 {
            lemma_differ(rs[6].rest, rs[0].rest, 0);
        } else if j1 == 6 && j2 == 1 {
            lemma_differ(rs[6].rest, rs[1].rest, 0);
        } else if j1 == 6 && j2 == 2 {
            lemma_differ(rs[6].rest, rs[2].rest, 0);
        } else if j1 == 6 && j2 == 3 {
            lemma_differ(rs[6].rest, rs[3].rest, 0);
        } else if j1 == 6 && j2 == 4 {
            lemma_differ(rs[6].rest, rs[4].rest, 0);
        } else if j1 == 6 && j2 == 5 {
            lemma_differ(rs[6].rest, rs[5].rest, 0);
        }
    }
}

proof fn lemma_bucket_ok_1()
    ensures
        bucket_ok(bucket_rules(1)),
{
    reveal(bucket_rules);
    let rs = bucket_rules(1);
    assert forall|j: int| 0 <= j < rs.len() implies #[trigger] rs[j].rest.len() <= 15 && rs[j].kind != TokenKind::Ident && (forall|
        k: int,
    | 0 <= k < rs[j].rest.len() ==> is_ident_byte(#[trigger] rs[j].rest[k])) && (forall|k: int|
        0 <= k < rs[j].ends.len() ==> !is_ident_byte(#[trigger] rs[j].ends[k])) by {
        assert(j == 0);
    }
}

proof fn lemma_bucket_ok_2()
    ensures
        bucket_ok(bucket_rules(2)),
{
    reveal(bucket_rules);
    let rs = bucket_rules(2);
    assert forall|j: int| 0 <= j < rs.len() implies #[trigger] rs[j].rest.len() <= 15 && rs[j].kind != TokenKind::Ident && (forall|
        k: int,
    | 0 <= k < rs[j].rest.len() ==> is_ident_byte(#[trigger] rs[j].rest[k])) && (forall|k: int|
        0 <= k < rs[j].ends.len() ==> !is_ident_byte(#[trigger] rs[j].ends[k])) by {
        assert(j == 0 || j == 1 || j == 2);
    }
    assert forall|j1: int, j2: int|
        0 <= j1 < rs.len() && 0 <= j2 < rs.len() && j1 != j2 implies #[trigger] rs[j1].rest
        != #[trigger] rs[j2].rest by {
        if j1 == 0 && j2 == 1 {
            lemma_differ(rs[0].rest, rs[1].rest, 0);
        } else if j1 == 0 && j2 == 2 {
            lemma_differ(rs[0].rest, rs[2].rest, 0);
        } else if j1 == 1 && j2 == 0 {
            lemma_differ(rs[1].rest, rs[0].rest, 0);
        } else if j1 == 1 && j2 == 2 {
            lemma_differ(rs[1].rest, rs[2].rest, 0);
        } else if j1 == 2 && j2 == 0 {
            lemma_differ(rs[2].rest, rs[0].rest, 0);
        } else if j1 == 2 && j2 == 1 {
            lemma_differ(rs[2].rest, rs[1].rest, 0);
        }
    }
}

proof fn lemma_bucket_ok_3()
    ensures
        bucket_ok(bucket_rules(3)),
{
    reveal(bucket_rules);
    let rs = bucket_rules(3);
    assert forall|j: int| 0 <= j < rs.len() implies #[trigger] rs[j].rest.len() <= 15 && rs[j].kind != TokenKind::Ident && (forall|
        k: int,
    | 0 <= k < rs[j].rest.len() ==> is_ident_byte(#[trigger] rs[j].rest[k])) && (forall|k: int|
        0 <= k < rs[j].ends.len() ==> !is_ident_byte(#[trigger] rs[j].ends[k])) by {
        assert(j == 0);
    }
}

proof fn lemma_bucket_ok_4()
    ensures
        bucket_ok(bucket_rules(4)),
{
    reveal(bucket_rules);
    let rs = bucket_rules(4);
    assert forall|j: int| 0 <= j < rs.len() implies #[trigger] rs[j].rest.len() <= 15 && rs[j].kind != TokenKind::Ident && (forall|
        k: int,
    | 0 <= k < rs[j].rest.len() ==> is_ident_byte(#[trigger] rs[j].rest[k])) && (forall|k: int|
        0 <= k < rs[j].ends.len() ==> !is_ident_byte(#[trigger] rs[j].ends[k])) by {
        assert(j == 0 || j == 1 || j == 2 || j == 3);
    }
    assert forall|j1: int, j2: int|
        0 <= j1 < rs.len() && 0 <= j2 < rs.len() && j1 != j2 implies #[trigger] rs[j1].rest
        != #[trigger] rs[j2].rest by {
        if j1 == 0 && j2 == 1 {
            lemma_differ(rs[0].rest, rs[1].rest, 0);
        } else if j1 == 0 && j2 == 2 {
            lemma_differ(rs[0].rest, rs[2].rest, 0);
        } else if j1 == 0 && j2 == 3 {
            lemma_differ(rs[0].rest, rs[3].rest, 0);
        } else if j1 == 1 && j2 == 0 {
            lemma_differ(rs[1].rest, rs[0].rest, 0);
        } else if j1 == 1 && j2 == 2 {
            lemma_differ(rs[1].rest, rs[2].rest, 3);
        } else if j1 == 1 && j2 == 3 {
            lemma_differ(rs[1].rest, rs[3].rest, 0);
        } else if j1 == 2 && j2 == 0 {
            lemma_differ(rs[2].rest, rs[0].rest, 0);
        } else if j1 == 2 && j2 == 1 {
            lemma_differ(rs[2].rest, rs[1].rest, 3);
        } else if j1 == 2 && j2 == 3 {
            lemma_differ(rs[2].rest, rs[3].rest, 0);
        } else if j1 == 3 && j2 == 0 {
            lemma_differ(rs[3].rest, rs[0].rest, 0);
        } else if j1 == 3 && j2 == 1 {
            lemma_differ(rs[3].rest, rs[1].rest, 0);
        } else if j1 == 3 && j2 == 2 {
            lemma_differ(rs[3].rest, rs[2].rest, 0);
        }
    }
}

proof fn lemma_bucket_ok_5()
    ensures
        bucket_ok(bucket_rules(5)),
{
    reveal(bucket_rules);
    let rs = bucket_rules(5);
    assert forall|j: int| 0 <= j < rs.len() implies #[trigger] rs[j].rest.len() <= 15 && rs[j].kind != TokenKind::Ident && (forall|
        k: int,
    | 0 <= k < rs[j].rest.len() ==> is_ident_byte(#[trigger] rs[j].rest[k])) && (forall|k: int|
        0 <= k < rs[j].ends.len() ==> !is_ident_byte(#[trigger] rs[j].ends[k])) by {
        assert(j == 0);
    }
}

proof fn lemma_bucket_ok_6()
    ensures
        bucket_ok(bucket_rules(6)),
{
    reveal(bucket_rules);
    let rs = bucket_rules(6);
    assert forall|j: int| 0 <= j < rs.len() implies #[trigger] rs[j].rest.len() <= 15 && rs[j].kind != TokenKind::Ident && (forall|
        k: int,
    | 0 <= k < rs[j].rest.len() ==> is_ident_byte(#[trigger] rs[j].rest[k])) && (forall|k: int|
        0 <= k < rs[j].ends.len() ==> !is_ident_byte(#[trigger] rs[j].ends[k])) by {
        assert(j == 0 || j == 1 || j == 2);
    }
    assert forall|j1: int, j2: int|
        0 <= j1 < rs.len() && 0 <= j2 < rs.len() && j1 != j2 implies #[trigger] rs[j1].rest
        != #[trigger] rs[j2].rest by {
        if j1 == 0 && j2 == 1 {
            lemma_differ(rs[0].rest, rs[1].rest, 0);
        } else if j1 == 0 && j2 == 2 {
            lemma_differ(rs[0].rest, rs[2].rest, 0);
        } else if j1 == 1 && j2 == 0 {
            lemma_differ(rs[1].rest, rs[0].rest, 0);
        } else if j1 == 1 && j2 == 2 {
            lemma_differ(rs[1].rest, rs[2].rest, 0);
        } else if j1 == 2 && j2 == 0 {
            lemma_differ(rs[2].rest, rs[0].rest, 0);
        } else if j1 == 2 && j2 == 1 {
            lemma_differ(rs[2].rest, rs[1].rest, 0);
        }
    }
}

proof fn lemma_bucket_ok_7()
    ensures
        bucket_ok(bucket_rules(7)),
{
    reveal(bucket_rules);
    let rs = bucket_rules(7);
    assert forall|j: int| 0 <= j < rs.len() implies #[trigger] rs[j].rest.len() <= 15 && rs[j].kind != TokenKind::Ident && (forall|
        k: int,
    | 0 <= k < rs[j].rest.len() ==> is_ident_byte(#[trigger] rs[j].rest[k])) && (forall|k: int|
        0 <= k < rs[j].ends.len() ==> !is_ident_byte(#[trigger] rs[j].ends[k])) by {
        assert(j == 0 || j == 1);
    }
    assert forall|j1: int, j2: int|
        0 <= j1 < rs.len() && 0 <= j2 < rs.len() && j1 != j2 implies #[trigger] rs[j1].rest
        != #[trigger] rs[j2].rest by {
        if j1 == 0 && j2 == 1 {
            lemma_differ(rs[0].rest, rs[1].rest, 0);
        } else if j1 == 1 && j2 == 0 {
            lemma_differ(rs[1].rest, rs[0].rest, 0);
        }
    }
}

proof fn lemma_bucket_ok_8()
    ensures
        bucket_ok(bucket_rules(8)),
{
    reveal(bucket_rules);
    let rs = bucket_rules(8);
    assert forall|j: int| 0 <= j < rs.len() implies #[trigger] rs[j].rest.len() <= 15 && rs[j].kind != TokenKind::Ident && (forall|
        k: int,
    | 0 <= k < rs[j].rest.len() ==> is_ident_byte(#[trigger] rs[j].rest[k])) && (forall|k: int|
        0 <= k < rs[j].ends.len() ==> !is_ident_byte(#[trigger] rs[j].ends[k])) by {
        assert(j == 0 || j == 1 || j == 2);
    }
    assert forall|j1: int, j2: int|
        0 <= j1 < rs.len() && 0 <= j2 < rs.len() && j1 != j2 implies #[trigger] rs[j1].rest
        != #[trigger] rs[j2].rest by {
        if j1 == 0 && j2 == 1 {
            lemma_differ(rs[0].rest, rs[1].rest, 0);
        } else if j1 == 0 && j2 == 2 {
            lemma_differ(rs[0].rest, rs[2].rest, 0);
        } else if j1 == 1 && j2 == 0 {
            lemma_differ(rs[1].rest, rs[0].rest, 0);
        } else if j1 == 1 && j2 == 2 {
            lemma_differ(rs[1].rest, rs[2].rest, 4);
        } else if j1 == 2 && j2 == 0 {
            lemma_differ(rs[2].rest, rs[0].rest, 0);
        } else if j1 == 2 && j2 == 1 {
            lemma_differ(rs[2].rest, rs[1].rest, 4);
        }
    }
}

proof fn lemma_bucket_ok_9()
    ensures
        bucket_ok(bucket_rules(9)),
{
    reveal(bucket_rules);
    let rs = bucket_rules(9);
    assert forall|j: int| 0 <= j < rs.len() implies #[trigger] rs[j].rest.len() <= 15 && rs[j].kind != TokenKind::Ident && (forall|
        k: int,
    | 0 <= k < rs[j].rest.len() ==> is_ident_byte(#[trigger] rs[j].rest[k])) && (forall|k: int|
        0 <= k < rs[j].ends.len() ==> !is_ident_byte(#[trigger] rs[j].ends[k])) by {
        assert(j == 0);
    }
}

proof fn lemma_bucket_ok_10()
    ensures
        bucket_ok(bucket_rules(10)),
{
    reveal(bucket_rules);
    let rs = bucket_rules(10);
    assert forall|j: int| 0 <= j < rs.len() implies #[trigger] rs[j].rest.len() <= 15 && rs[j].kind != TokenKind::Ident && (forall|
        k: int,
    | 0 <= k < rs[j].rest.len() ==> is_ident_byte(#[trigger] rs[j].rest[k])) && (forall|k: int|
        0 <= k < rs[j].ends.len() ==> !is_ident_byte(#[trigger] rs[j].ends[k])) by {
        assert(j == 0 || j == 1);
    }
    assert forall|j1: int, j2: int|
        0 <= j1 < rs.len() && 0 <= j2 < rs.len() && j1 != j2 implies #[trigger] rs[j1].rest
        != #[trigger] rs[j2].rest by {
        if j1 == 0 && j2 == 1 {
            lemma_differ(rs[0].rest, rs[1].rest, 0);
        } else if j1 == 1 && j2 == 0 {
            lemma_differ(rs[1].rest, rs[0].rest, 0);
        }
    }
}

proof fn lemma_bucket_ok_11()
    ensures
        bucket_ok(bucket_rules(11)),
{
    reveal(bucket_rules);
    let rs = bucket_rules(11);
    assert forall|j: int| 0 <= j < rs.len() implies #[trigger] rs[j].rest.len() <= 15 && rs[j].kind != TokenKind::Ident && (forall|
        k: int,
    | 0 <= k < rs[j].rest.len() ==> is_ident_byte(#[trigger] rs[j].rest[k])) && (forall|k: int|
        0 <= k < rs[j].ends.len() ==> !is_ident_byte(#[trigger] rs[j].ends[k])) by {
        assert(j == 0 || j == 1);
    }
    assert forall|j1: int, j2: int|
        0 <= j1 < rs.len() && 0 <= j2 < rs.len() && j1 != j2 implies #[trigger] rs[j1].rest
        != #[trigger] rs[j2].rest by {
        if j1 == 0 && j2 == 1 {
            lemma_differ(rs[0].rest, rs[1].rest, 0);
        } else if j1 == 1 && j2 == 0 {
            lemma_differ(rs[1].rest, rs[0].rest, 0);
        }
    }
}

proof fn lemma_bucket_ok_12()
    ensures
        bucket_ok(bucket_rules(12)),
{
    reveal(bucket_rules);
    let rs = bucket_rules(12);
    assert forall|j: int| 0 <= j < rs.len() implies #[trigger] rs[j].rest.len() <= 15 && rs[j].kind != TokenKind::Ident && (forall|
        k: int,
    | 0 <= k < rs[j].rest.len() ==> is_ident_byte(#[trigger] rs[j].rest[k])) && (forall|k: int|
        0 <= k < rs[j].ends.len() ==> !is_ident_byte(#[trigger] rs[j].ends[k])) by {
        assert(j == 0);
    }
}

proof fn lemma_bucket_ok_13()
    ensures
        bucket_ok(bucket_rules(13)),
{
    reveal(bucket_rules);
    let rs = bucket_rules(13);
    assert forall|j: int| 0 <= j < rs.len() implies #[trigger] rs[j].rest.len() <= 15 && rs[j].kind != TokenKind::Ident && (forall|
        k: int,
    | 0 <= k < rs[j].rest.len() ==> is_ident_byte(#[trigger] rs[j].rest[k])) && (forall|k: int|
        0 <= k < rs[j].ends.len() ==> !is_ident_byte(#[trigger] rs[j].ends[k])) by {
        assert(j == 0);
    }
}

proof fn lemma_bucket_ok_14()
    ensures
        bucket_ok(bucket_rules(14)),
{
    reveal(bucket_rules);
    let rs = bucket_rules(14);
    assert forall|j: int| 0 <= j < rs.len() implies #[trigger] rs[j].rest.len() <= 15 && rs[j].kind != TokenKind::Ident && (forall|
        k: int,
    | 0 <= k < rs[j].rest.len() ==> is_ident_byte(#[trigger] rs[j].rest[k])) && (forall|k: int|
        0 <= k < rs[j].ends.len() ==> !is_ident_byte(#[trigger] rs[j].ends[k])) by {
        assert(j == 0 || j == 1 || j == 2 || j == 3 || j == 4 || j == 5);
    }
    assert forall|j1: int, j2: int|
        0 <= j1 < rs.len() && 0 <= j2 < rs.len() && j1 != j2 implies #[trigger] rs[j1].rest
        != #[trigger] rs[j2].rest by {
        if j1 == 0 && j2 == 1 {
            lemma_differ(rs[0].rest, rs[1].rest, 0);
        } else if j1 == 0 && j2 == 2 {
            lemma_differ(rs[0].rest, rs[2].rest, 0);
        } else if j1 == 0 && j2 == 3 {
            lemma_differ(rs[0].rest, rs[3].rest, 0);
        } else if j1 == 0 && j2 == 4 {
            lemma_differ(rs[0].rest, rs[4].rest, 0);
        } else if j1 == 0 && j2 == 5 {
            lemma_differ(rs[0].rest, rs[5].rest, 0);
        } else if j1 == 1 && j2 == 0 {
            lemma_differ(rs[1].rest, rs[0].rest, 0);
        } else if j1 == 1 && j2 == 2 {
            lemma_differ(rs[1].rest, rs[2].rest, 0);
        } else if j1 == 1 && j2 == 3 {
            lemma_differ(rs[1].rest, rs[3].rest, 0);
        } else if j1 == 1 && j2 == 4 {
            lemma_differ(rs[1].rest, rs[4].rest, 0);
        } else if j1 == 1 && j2 == 5 {
            lemma_differ(rs[1].rest, rs[5].rest, 0);
        } else if j1 == 2 && j2 == 0 {
            lemma_differ(rs[2].rest, rs[0].rest, 0);
        } else if j1 == 2 && j2 == 1 {
            lemma_differ(rs[2].rest, rs[1].rest, 0);
        } else if j1 == 2 && j2 == 3 {
            lemma_differ(rs[2].rest, rs[3].rest, 3);
        } else if j1 == 2 && j2 == 4 {
            lemma_differ(rs[2].rest, rs[4].rest, 3);
        } else if j1 == 2 && j2 == 5 {
            lemma_differ(rs[2].rest, rs[5].rest, 0);
        } else if j1 == 3 && j2 == 0 {
            lemma_differ(rs[3].rest, rs[0].rest, 0);
        } else if j1 == 3 && j2 == 1 {
            lemma_differ(rs[3].rest, rs[1].rest, 0);
        } else if j1 == 3 && j2 == 2 {
            lemma_differ(rs[3].rest, rs[2].rest, 3);
        } else if j1 == 3 && j2 == 4 {
            lemma_differ(rs[3].rest, rs[4].rest, 3);
        } else if j1 == 3 && j2 == 5 {
            lemma_differ(rs[3].rest, rs[5].rest, 0);
        } else if j1 == 4 && j2 == 0 {
            lemma_differ(rs[4].rest, rs[0].rest, 0);
        } else if j1 == 4 && j2 == 1 {
            lemma_differ(rs[4].rest, rs[1].rest, 0);
        } else if j1 == 4 && j2 == 2 {
            lemma_differ(rs[4].rest, rs[2].rest, 3);
        } else if j1 == 4 && j2 == 3 {
            lemma_differ(rs[4].rest, rs[3].rest, 3);
        } else if j1 == 4 && j2 == 5 {
            lemma_differ(rs[4].rest, rs[5].rest, 0);
        } else if j1 == 5 && j2 == 0 {
            lemma_differ(rs[5].rest, rs[0].rest, 0);
        } else if j1 == 5 && j2 == 1 {
            lemma_differ(rs[5].rest, rs[1].rest, 0);
        } else if j1 == 5 && j2 == 2 {
            lemma_differ(rs[5].rest, rs[2].rest, 0);
        } else if j1 == 5 && j2 == 3 {
            lemma_differ(rs[5].rest, rs[3].rest, 0);
        } else if j1 == 5 && j2 == 4 {
            lemma_differ(rs[5].rest, rs[4].rest, 0);
        }
    }
}

proof fn lemma_bucket_ok_15()
    ensures
        bucket_ok(bucket_rules(15)),
{
    reveal(bucket_rules);
    let rs = bucket_rules(15);
    assert forall|j: int| 0 <= j < rs.len() implies #[trigger] rs[j].rest.len() <= 15 && rs[j].kind != TokenKind::Ident && (forall|
        k: int,
    | 0 <= k < rs[j].rest.len() ==> is_ident_byte(#[trigger] rs[j].rest[k])) && (forall|k: int|
        0 <= k < rs[j].ends.len() ==> !is_ident_byte(#[trigger] rs[j].ends[k])) by {
        assert(j == 0);
    }
}

/// Every bucket of the reserved words is unambiguous.
pub proof fn lemma_buckets_ok(g: int)
    requires
        0 <= g < 16,
    ensures
        bucket_ok(bucket_rules(g)),
{
    if g == 0 {
        lemma_bucket_ok_0();
    } else if g == 1 {
        lemma_bucket_ok_1();
    } else if g == 2 {
        lemma_bucket_ok_2();
    } else if g == 3 {
        lemma_bucket_ok_3();
    } else if g == 4 {
        lemma_bucket_ok_4();
    } else if g == 5 {
        lemma_bucket_ok_5();
    } else if g == 6 {
        lemma_bucket_ok_6();
    } else if g == 7 {
        lemma_bucket_ok_7();
    } else if g == 8 {
        lemma_bucket_ok_8();
    } else if g == 9 {
        lemma_bucket_ok_9();
    } else if g == 10 {
        lemma_bucket_ok_10();
    } else if g == 11 {
        lemma_bucket_ok_11();
    } else if g == 12 {
        lemma_bucket_ok_12();
    } else if g == 13 {
        lemma_bucket_ok_13();
    } else if g == 14 {
        lemma_bucket_ok_14();
    } else {
        lemma_bucket_ok_15();
    }
}

/// The entry for rule `r` ended by its `k`-th ending byte.
#[verifier::opaque]
pub open spec fn rule_entry(r: KeywordRule, k: int) -> Entry {
    Entry { value: encode_spec(r.rest.push(r.ends[k])), len: (r.rest.len() + 1) as u8, kind: r.kind }
}

/// `es` holds exactly the entries of the first `n` rules of `rules`, one per ending byte.
#[verifier::opaque]
pub open spec fn models(es: Seq<Entry>, rules: Seq<KeywordRule>, n: int) -> bool {
    &&& forall|i: int|
        0 <= i < es.len() ==> exists|j: int, k: int|
            0 <= j < n && 0 <= k < rules[j].ends.len() && #[trigger] es[i] == #[trigger] rule_entry(
                rules[j],
                k,
            )
    &&& forall|j: int, k: int|
        0 <= j < n && 0 <= k < rules[j].ends.len() ==> exists|i: int|
            0 <= i < es.len() && #[trigger] es[i] == #[trigger] rule_entry(rules[j], k)
    &&& forall|i: int| 0 <= i < es.len() ==> #[trigger] es[i].len <= 16
}

proof fn lemma_models_empty(rules: Seq<KeywordRule>)
    ensures
        models(Seq::empty(), rules, 0),
{
    reveal(models);
}

proof fn lemma_extend_entries(start: Seq<Entry>, es: Seq<Entry>, rules: Seq<KeywordRule>, j: int)
    requires
        models(start, rules, j),
        0 <= j < rules.len(),
        rules[j].rest.len() <= 15,
        es.len() == start.len() + rules[j].ends.len(),
        forall|x: int| 0 <= x < start.len() ==> es[x] == start[x],
        forall|k: int|
            0 <= k < rules[j].ends.len() ==> es[start.len() + k] == rule_entry(rules[j], k),
    ensures
        forall|x: int|
            0 <= x < es.len() ==> exists|j2: int, k: int|
                0 <= j2 < j + 1 && 0 <= k < rules[j2].ends.len() && #[trigger] es[x]
                    == #[trigger] rule_entry(rules[j2], k),
{
    reveal(models);
    assert forall|x: int| 0 <= x < es.len() implies exists|j2: int, k: int|
        0 <= j2 < j + 1 && 0 <= k < rules[j2].ends.len() && #[trigger] es[x] == #[trigger] rule_entry(
            rules[j2],
            k,
        ) by {
        if x < start.len() {
            assert(es[x] == start[x]);
        } else {
            assert(es[x] == rule_entry(rules[j], x - start.len()));
        }
    }
}

proof fn lemma_extend_rules(start: Seq<Entry>, es: Seq<Entry>, rules: Seq<KeywordRule>, j: int)
    requires
        models(start, rules, j),
        0 <= j < rules.len(),
        rules[j].rest.len() <= 15,
        es.len() == start.len() + rules[j].ends.len(),
        forall|x: int| 0 <= x < start.len() ==> es[x] == start[x],
        forall|k: int|
            0 <= k < rules[j].ends.len() ==> es[start.len() + k] == rule_entry(rules[j], k),
    ensures
        forall|j2: int, k: int|
            0 <= j2 < j + 1 && 0 <= k < rules[j2].ends.len() ==> exists|x: int|
                0 <= x < es.len() && #[trigger] es[x] == #[trigger] rule_entry(rules[j2], k),
{
    reveal(models);
    assert forall|j2: int, k: int| 0 <= j2 < j + 1 && 0 <= k < rules[j2].ends.len() implies exists|
        x: int,
    | 0 <= x < es.len() && #[trigger] es[x] == #[trigger] rule_entry(rules[j2], k) by {
        if j2 < j {
            let x = choose|x: int|
                0 <= x < start.len() && #[trigger] start[x] == rule_entry(rules[j2], k);
            assert(es[x] == start[x]);
        } else {
            assert(es[start.len() + k] == rule_entry(rules[j], k));
        }
    }
}

proof fn lemma_models_intro(es: Seq<Entry>, rules: Seq<KeywordRule>, n: int)
    requires
        forall|i: int|
            0 <= i < es.len() ==> exists|j: int, k: int|
                0 <= j < n && 0 <= k < rules[j].ends.len() && #[trigger] es[i]
                    == #[trigger] rule_entry(rules[j], k),
        forall|j: int, k: int|
            0 <= j < n && 0 <= k < rules[j].ends.len() ==> exists|i: int|
                0 <= i < es.len() && #[trigger] es[i] == #[trigger] rule_entry(rules[j], k),
        forall|i: int| 0 <= i < es.len() ==> #[trigger] es[i].len <= 16,
    ensures
        models(es, rules, n),
{
    reveal(models);
}

proof fn lemma_rule_entry(r: KeywordRule, k: int)
    ensures
        rule_entry(r, k).len == (r.rest.len() + 1) as u8,
        rule_entry(r, k).kind == r.kind,
        rule_entry(r, k).value == encode_spec(r.rest.push(r.ends[k])),
{
    reveal(rule_entry);
}

proof fn lemma_extend_lens(start: Seq<Entry>, es: Seq<Entry>, rules: Seq<KeywordRule>, j: int)
    requires
        models(start, rules, j),
        0 <= j < rules.len(),
        rules[j].rest.len() <= 15,
        es.len() == start.len() + rules[j].ends.len(),
        forall|x: int| 0 <= x < start.len() ==> es[x] == start[x],
        forall|k: int|
            0 <= k < rules[j].ends.len() ==> es[start.len() + k] == rule_entry(rules[j], k),
    ensures
        forall|x: int| 0 <= x < es.len() ==> #[trigger] es[x].len <= 16,
{
    reveal(models);
    assert forall|x: int| 0 <= x < es.len() implies #[trigger] es[x].len <= 16 by {
        if x < start.len() {
            assert(es[x] == start[x]);
        } else {
            lemma_rule_entry(rules[j], x - start.len());
            assert(es[x] == rule_entry(rules[j], x - start.len()));
        }
    }
}

proof fn lemma_models_extend(start: Seq<Entry>, es: Seq<Entry>, rules: Seq<KeywordRule>, j: int)
    requires
        models(start, rules, j),
        0 <= j < rules.len(),
        rules[j].rest.len() <= 15,
        es.len() == start.len() + rules[j].ends.len(),
        forall|x: int| 0 <= x < start.len() ==> es[x] == start[x],
        forall|k: int|
            0 <= k < rules[j].ends.len() ==> es[start.len() + k] == rule_entry(rules[j], k),
    ensures
        models(es, rules, j + 1),
{
    lemma_extend_entries(start, es, rules, j);
    lemma_extend_rules(start, es, rules, j);
    lemma_extend_lens(start, es, rules, j);
    lemma_models_intro(es, rules, j + 1);
}

/// Appends the entries of rule `j` of `rules`, one per ending byte.
fn add_rule(
    group: &mut Vec<Entry>,
    rest: &[u8],
    ends: &[u8],
    kind: TokenKind,
    Ghost(rules): Ghost<Seq<KeywordRule>>,
    Ghost(j): Ghost<int>,
)
    requires
        0 <= j < rules.len(),
        rules[j].rest =~= rest@,
        rules[j].ends =~= ends@,
        rules[j].kind == kind,
        rest@.len() <= 15,
        models(old(group)@, rules, j),
    ensures
        models(final(group)@, rules, j + 1),
{
    let ghost start = group@;
    let mut i: usize = 0;
    while i < ends.len()
        invariant
            0 <= j < rules.len(),
            rules[j].rest == rest@,
            rules[j].ends == ends@,
            rules[j].kind == kind,
            i <= ends@.len(),
            rest@.len() <= 15,
            models(start, rules, j),
            group@.len() == start.len() + i,
            forall|x: int| 0 <= x < start.len() ==> group@[x] == start[x],
            forall|k: int| 0 <= k < i ==> group@[start.len() + k] == rule_entry(rules[j], k),
        decreases ends@.len() - i,
    {
        let mut pat: Vec<u8> = vstd::slice::slice_to_vec(rest);
        pat.push(ends[i]);
        let e = Entry::new(pat.as_slice(), kind);
        proof {
            reveal(rule_entry);
            assert(pat@ == rest@.push(ends@[i as int]));
            assert(e == rule_entry(rules[j], i as int));
        }
        group.push(e);
        i += 1;
    }
    proof {
        lemma_models_extend(start, group@, rules, j);
    }
}

fn build_bucket_0() -> (r: Vec<Entry>)
    ensures
        models(r@, bucket_rules(0), bucket_rules(0).len() as int),
{
    let mut es: Vec<Entry> = Vec::new();
    let ghost rs = bucket_rules(0);
    proof {
        reveal(bucket_rules);
        lemma_models_empty(rs);
    }
    add_rule(
        &mut es,
        &['m' as u8, 'p' as u8, 'o' as u8, 'r' as u8, 't' as u8],
        &[' ' as u8],
        TokenKind::Import,
        Ghost(rs),
        Ghost(0),
    );
    add_rule(
        &mut es,
        &['f' as u8],
        &[' ' as u8],
        TokenKind::IfKw,
        Ghost(rs),
        Ghost(1),
    );
    add_rule(
        &mut es,
        &['n' as u8, 't' as u8, '8' as u8],
        &[')' as u8, '{' as u8, ',' as u8, '>' as u8, ' ' as u8, '.' as u8],
        TokenKind::Int8,
        Ghost(rs),
        Ghost(2),
    );
    add_rule(
        &mut es,
        &['n' as u8, 't' as u8, '1' as u8, '6' as u8],
        &[')' as u8, '{' as u8, ',' as u8, '>' as u8, ' ' as u8, '.' as u8],
        TokenKind::Int16,
        Ghost(rs),
        Ghost(3),
    );
    add_rule(
        &mut es,
        &['n' as u8, 't' as u8, '3' as u8, '2' as u8],
        &[')' as u8, '{' as u8, ',' as u8, '>' as u8, ' ' as u8, '.' as u8],
        TokenKind::Int32,
        Ghost(rs),
        Ghost(4),
    );
    add_rule(
        &mut es,
        &['n' as u8, 't' as u8, '6' as u8, '4' as u8],
        &[')' as u8, '{' as u8, ',' as u8, '>' as u8, ' ' as u8, '.' as u8],
        TokenKind::Int64,
        Ghost(rs),
        Ghost(5),
    );
    add_rule(
        &mut es,
        &['s' as u8, 'i' as u8, 'z' as u8, 'e' as u8],
        &[')' as u8, '{' as u8, ',' as u8, '>' as u8, ' ' as u8, '.' as u8],
        TokenKind::Isize,
        Ghost(rs),
        Ghost(6),
    );
    es
}

fn build_bucket_1() -> (r: Vec<Entry>)
    ensures
        models(r@, bucket_rules(1), bucket_rules(1).len() as int),
{
    let mut es: Vec<Entry> = Vec::new();
    let ghost rs = bucket_rules(1);
    proof {
        reveal(bucket_rules);
        lemma_models_empty(rs);
    }
    add_rule(
        &mut es,
        &['e' as u8, 'f' as u8, 'u' as u8, 'n' as u8],
        &[' ' as u8],
        TokenKind::Defun,
        Ghost(rs),
        Ghost(0),
    );
    es
}

fn build_bucket_2() -> (r: Vec<Entry>)
    ensures
        models(r@, bucket_rules(2), bucket_rules(2).len() as int),
{
    let mut es: Vec<Entry> = Vec::new();
    let ghost rs = bucket_rules(2);
    proof {
        reveal(bucket_rules);
        lemma_models_empty(rs);
    }
    add_rule(
        &mut es,
        &['o' as u8, 'm' as u8, 'p' as u8, 'o' as u8, 'n' as u8, 'e' as u8, 'n' as u8, 't' as u8],
        &[' ' as u8, '{' as u8],
        TokenKind::Component,
        Ghost(rs),
        Ghost(0),
    );
    add_rule(
        &mut es,
        &['a' as u8, 's' as u8, 'e' as u8],
        &[' ' as u8, ':' as u8],
        TokenKind::CaseKw,
        Ghost(rs),
        Ghost(1),
    );
    add_rule(
        &mut es,
        &['h' as u8, 'a' as u8, 'r' as u8],
        &[' ' as u8, '{' as u8, ',' as u8, '>' as u8, ')' as u8, '.' as u8],
        TokenKind::Char,
        Ghost(rs),
        Ghost(2),
    );
    es
}

fn build_bucket_3() -> (r: Vec<Entry>)
    ensures
        models(r@, bucket_rules(3), bucket_rules(3).len() as int),
{
    let mut es: Vec<Entry> = Vec::new();
    let ghost rs = bucket_rules(3);
    proof {
        reveal(bucket_rules);
        lemma_models_empty(rs);
    }
    add_rule(
        &mut es,
        &['b' as u8, 'j' as u8],
        &[' ' as u8, '{' as u8],
        TokenKind::Obj,
        Ghost(rs),
        Ghost(0),
    );
    es
}

fn build_bucket_4() -> (r: Vec<Entry>)
    ensures
        models(r@, bucket_rules(4), bucket_rules(4).len() as int),
{
    let mut es: Vec<Entry> = Vec::new();
    let ghost rs = bucket_rules(4);
    proof {
        reveal(bucket_rules);
        lemma_models_empty(rs);
    }
    add_rule(
        &mut es,
        &['x' as u8, 't' as u8, 'e' as u8, 'n' as u8, 'd' as u8, 's' as u8],
        &[' ' as u8],
        TokenKind::Extends,
        Ghost(rs),
        Ghost(0),
    );
    add_rule(
        &mut es,
        &['x' as u8, 't' as u8, 'e' as u8, 'n' as u8, 'd' as u8],
        &[' ' as u8],
        TokenKind::Extend,
        Ghost(rs),
        Ghost(1),
    );
    add_rule(
        &mut es,
        &['x' as u8, 't' as u8, 'e' as u8, 'r' as u8, 'n' as u8],
        &[' ' as u8, '"' as u8],
        TokenKind::ExternKw,
        Ghost(rs),
        Ghost(2),
    );
    add_rule(
        &mut es,
        &['n' as u8, 'u' as u8, 'm' as u8],
        &[' ' as u8, '{' as u8],
        TokenKind::Enum,
        Ghost(rs),
        Ghost(3),
    );
    es
}

fn build_bucket_5() -> (r: Vec<Entry>)
    ensures
        models(r@, bucket_rules(5), bucket_rules(5).len() as int),
{
    let mut es: Vec<Entry> = Vec::new();
    let ghost rs = bucket_rules(5);
    proof {
        reveal(bucket_rules);
        lemma_models_empty(rs);
    }
    add_rule(
        &mut es,
        &['h' as u8, 'i' as u8, 's' as u8],
        &[' ' as u8],
        TokenKind::ThisVar,
        Ghost(rs),
        Ghost(0),
    );
    es
}

fn build_bucket_6() -> (r: Vec<Entry>)
    ensures
        models(r@, bucket_rules(6), bucket_rules(6).len() as int),
{
    let mut es: Vec<Entry> = Vec::new();
    let ghost rs = bucket_rules(6);
    proof {
        reveal(bucket_rules);
        lemma_models_empty(rs);
    }
    add_rule(
        &mut es,
        &['u' as u8, 'b' as u8],
        &[' ' as u8, '(' as u8],
        TokenKind::Pub,
        Ghost(rs),
        Ghost(0),
    );
    add_rule(
        &mut es,
        &['r' as u8, 'i' as u8, 'v' as u8],
        &[' ' as u8, '(' as u8],
        TokenKind::Priv,
        Ghost(rs),
        Ghost(1),
    );
    add_rule(
        &mut es,
        &['a' as u8, 'c' as u8, 'k' as u8],
        &[' ' as u8, ')' as u8],
        TokenKind::PackKw,
        Ghost(rs),
        Ghost(2),
    );
    es
}

fn build_bucket_7() -> (r: Vec<Entry>)
    ensures
        models(r@, bucket_rules(7), bucket_rules(7).len() as int),
{
    let mut es: Vec<Entry> = Vec::new();
    let ghost rs = bucket_rules(7);
    proof {
        reveal(bucket_rules);
        lemma_models_empty(rs);
    }
    add_rule(
        &mut es,
        &['e' as u8, 't' as u8],
        &[' ' as u8],
        TokenKind::LetKw,
        Ghost(rs),
        Ghost(0),
    );
    add_rule(
        &mut es,
        &['o' as u8, 'o' as u8, 'p' as u8],
        &[' ' as u8, '{' as u8],
        TokenKind::LoopKw,
        Ghost(rs),
        Ghost(1),
    );
    es
}

fn build_bucket_8() -> (r: Vec<Entry>)
    ensures
        models(r@, bucket_rules(8), bucket_rules(8).len() as int),
{
    let mut es: Vec<Entry> = Vec::new();
    let ghost rs = bucket_rules(8);
    proof {
        reveal(bucket_rules);
        lemma_models_empty(rs);
    }
    add_rule(
        &mut es,
        &['o' as u8, 'r' as u8],
        &[' ' as u8, '(' as u8],
        TokenKind::ForKw,
        Ghost(rs),
        Ghost(0),
    );
    add_rule(
        &mut es,
        &['l' as u8, 'o' as u8, 'a' as u8, 't' as u8, '3' as u8, '2' as u8],
        &[' ' as u8, ')' as u8, '{' as u8, ',' as u8, '>' as u8, '.' as u8],
        TokenKind::Float32,
        Ghost(rs),
        Ghost(1),
    );
    add_rule(
        &mut es,
        &['l' as u8, 'o' as u8, 'a' as u8, 't' as u8, '6' as u8, '4' as u8],
        &[' ' as u8, ')' as u8, '{' as u8, ',' as u8, '>' as u8, '.' as u8],
        TokenKind::Float64,
        Ghost(rs),
        Ghost(2),
    );
    es
}

fn build_bucket_9() -> (r: Vec<Entry>)
    ensures
        models(r@, bucket_rules(9), bucket_rules(9).len() as int),
{
    let mut es: Vec<Entry> = Vec::new();
    let ghost rs = bucket_rules(9);
    proof {
        reveal(bucket_rules);
        lemma_models_empty(rs);
    }
    add_rule(
        &mut es,
        &['h' as u8, 'i' as u8, 'l' as u8, 'e' as u8],
        &[' ' as u8, '(' as u8],
        TokenKind::WhileKw,
        Ghost(rs),
        Ghost(0),
    );
    es
}

fn build_bucket_10() -> (r: Vec<Entry>)
    ensures
        models(r@, bucket_rules(10), bucket_rules(10).len() as int),
{
    let mut es: Vec<Entry> = Vec::new();
    let ghost rs = bucket_rules(10);
    proof {
        reveal(bucket_rules);
        lemma_models_empty(rs);
    }
    add_rule(
        &mut es,
        &['w' as u8, 'i' as u8, 't' as u8, 'c' as u8, 'h' as u8],
        &[' ' as u8],
        TokenKind::SwitchKw,
        Ghost(rs),
        Ghost(0),
    );
    add_rule(
        &mut es,
        &['t' as u8, 'r' as u8],
        &[' ' as u8, ')' as u8, '{' as u8, ',' as u8, '>' as u8, '.' as u8],
        TokenKind::Str,
        Ghost(rs),
        Ghost(1),
    );
    es
}

fn build_bucket_11() -> (r: Vec<Entry>)
    ensures
        models(r@, bucket_rules(11), bucket_rules(11).len() as int),
{
    let mut es: Vec<Entry> = Vec::new();
    let ghost rs = bucket_rules(11);
    proof {
        reveal(bucket_rules);
        lemma_models_empty(rs);
    }
    add_rule(
        &mut es,
        &['o' as u8, 'v' as u8, 'e' as u8],
        &[' ' as u8],
        TokenKind::MoveKw,
        Ghost(rs),
        Ghost(0),
    );
    add_rule(
        &mut es,
        &['u' as u8, 't' as u8],
        &[' ' as u8],
        TokenKind::MutKw,
        Ghost(rs),
        Ghost(1),
    );
    es
}

fn build_bucket_12() -> (r: Vec<Entry>)
    ensures
        models(r@, bucket_rules(12), bucket_rules(12).len() as int),
{
    let mut es: Vec<Entry> = Vec::new();
    let ghost rs = bucket_rules(12);
    proof {
        reveal(bucket_rules);
        lemma_models_empty(rs);
    }
    add_rule(
        &mut es,
        &['n' as u8, 'y' as u8],
        &[' ' as u8, ')' as u8, '{' as u8, ',' as u8, '>' as u8, '.' as u8],
        TokenKind::Any,
        Ghost(rs),
        Ghost(0),
    );
    es
}

fn build_bucket_13() -> (r: Vec<Entry>)
    ensures
        models(r@, bucket_rules(13), bucket_rules(13).len() as int),
{
    let mut es: Vec<Entry> = Vec::new();
    let ghost rs = bucket_rules(13);
    proof {
        reveal(bucket_rules);
        lemma_models_empty(rs);
    }
    add_rule(
        &mut es,
        &['o' as u8, 'o' as u8, 'l' as u8],
        &[' ' as u8, ')' as u8, '{' as u8, ',' as u8, '>' as u8, '.' as u8],
        TokenKind::Bool,
        Ghost(rs),
        Ghost(0),
    );
    es
}

fn build_bucket_14() -> (r: Vec<Entry>)
    ensures
        models(r@, bucket_rules(14), bucket_rules(14).len() as int),
{
    let mut es: Vec<Entry> = Vec::new();
    let ghost rs = bucket_rules(14);
    proof {
        reveal(bucket_rules);
        lemma_models_empty(rs);
    }
    add_rule(
        &mut es,
        &['n' as u8, 'i' as u8, 'o' as u8, 'n' as u8],
        &[' ' as u8, '{' as u8],
        TokenKind::Union,
        Ghost(rs),
        Ghost(0),
    );
    add_rule(
        &mut es,
        &['i' as u8, 'n' as u8, 't' as u8, '8' as u8],
        &[')' as u8, '{' as u8, ',' as u8, '>' as u8, ' ' as u8, '.' as u8],
        TokenKind::Uint8,
        Ghost(rs),
        Ghost(1),
    );
    add_rule(
        &mut es,
        &['i' as u8, 'n' as u8, 't' as u8, '1' as u8, '6' as u8],
        &[')' as u8, '{' as u8, ',' as u8, '>' as u8, ' ' as u8, '.' as u8],
        TokenKind::Uint16,
        Ghost(rs),
        Ghost(2),
    );
    add_rule(
        &mut es,
        &['i' as u8, 'n' as u8, 't' as u8, '3' as u8, '2' as u8],
        &[')' as u8, '{' as u8, ',' as u8, '>' as u8, ' ' as u8, '.' as u8],
        TokenKind::Uint32,
        Ghost(rs),
        Ghost(3),
    );
    add_rule(
        &mut es,
        &['i' as u8, 'n' as u8, 't' as u8, '6' as u8, '4' as u8],
        &[')' as u8, '{' as u8, ',' as u8, '>' as u8, ' ' as u8, '.' as u8],
        TokenKind::Uint64,
        Ghost(rs),
        Ghost(4),
    );
    add_rule(
        &mut es,
        &['s' as u8, 'i' as u8, 'z' as u8, 'e' as u8],
        &[')' as u8, '{' as u8, ',' as u8, '>' as u8, ' ' as u8, '.' as u8],
        TokenKind::Usize,
        Ghost(rs),
        Ghost(5),
    );
    es
}

fn build_bucket_15() -> (r: Vec<Entry>)
    ensures
        models(r@, bucket_rules(15), bucket_rules(15).len() as int),
{
    let mut es: Vec<Entry> = Vec::new();
    let ghost rs = bucket_rules(15);
    proof {
        reveal(bucket_rules);
        lemma_models_empty(rs);
    }
    add_rule(
        &mut es,
        &['h' as u8, 'i' as u8, 's' as u8],
        &[')' as u8, '{' as u8, ',' as u8, '>' as u8, ' ' as u8, '.' as u8],
        TokenKind::ThisTy,
        Ghost(rs),
        Ghost(0),
    );
    es
}

/// The table of reserved words: bucket `g` holds the entries of `bucket_rules(g)`.
pub fn keyword_table() -> (r: Table)
    ensures
        r.wf(),
        r@.len() == 16,
        forall|g: int|
            0 <= g < 16 ==> models(#[trigger] r@[g], bucket_rules(g), bucket_rules(g).len() as int),
{
    let mut groups: Vec<Vec<Entry>> = Vec::new();
    groups.push(build_bucket_0());
    groups.push(build_bucket_1());
    groups.push(build_bucket_2());
    groups.push(build_bucket_3());
    groups.push(build_bucket_4());
    groups.push(build_bucket_5());
    groups.push(build_bucket_6());
    groups.push(build_bucket_7());
    groups.push(build_bucket_8());
    groups.push(build_bucket_9());
    groups.push(build_bucket_10());
    groups.push(build_bucket_11());
    groups.push(build_bucket_12());
    groups.push(build_bucket_13());
    groups.push(build_bucket_14());
    groups.push(build_bucket_15());
    let r = Table::new(groups);
    assert forall|g: int| 0 <= g < 16 implies models(
        #[trigger] r@[g],
        bucket_rules(g),
        bucket_rules(g).len() as int,
    ) by {
        assert(r@[g] == groups@[g]@);
        assert(g == 0 || g == 1 || g == 2 || g == 3 || g == 4 || g == 5 || g == 6 || g == 7 || g
            == 8 || g == 9 || g == 10 || g == 11 || g == 12 || g == 13 || g == 14 || g == 15);
    }
    assert forall|g: int, j: int| 0 <= g < r@.len() && 0 <= j < r@[g].len() implies #[trigger] r@[g][j].len
        <= 16 by {
        reveal(models);
        assert(models(r@[g], bucket_rules(g), bucket_rules(g).len() as int));
    }
    r
}

/// The tables that hold exactly the reserved words.
pub open spec fn is_keyword_table(t: Table) -> bool {
    &&& t.wf()
    &&& t@.len() == 16
    &&& forall|g: int|
        0 <= g < 16 ==> models(#[trigger] t@[g], bucket_rules(g), bucket_rules(g).len() as int)
}

/// The rule matching `input` in bucket `g`, when there is one, and the kind and length of
/// the first matching entry of a table that holds the bucket.
proof fn lemma_lookup(t: Table, g: int, input: Seq<u8>)
    requires
        is_keyword_table(t),
        0 <= g < 16,
    ensures
        ({
            let rules = bucket_rules(g);
            match first_match(t@[g], input) {
                Some(e) => exists|j: int|
                    0 <= j < rules.len() && rule_matches(#[trigger] rules[j], input) && e.kind
                        == rules[j].kind && e.len == rules[j].rest.len() + 1,
                None => forall|j: int|
                    0 <= j < rules.len() ==> !rule_matches(#[trigger] rules[j], input),
            }
        }),
{
    let rules = bucket_rules(g);
    let es = t@[g];
    lemma_buckets_ok(g);
    lemma_first_match(es, input, 0);
    reveal(models);
    assert(models(es, rules, rules.len() as int));
    match first_match(es, input) {
        Some(e) => {
            let i = choose|i: int| 0 <= i < es.len() && es[i] == e && entry_matches(e, input);
            assert(es[i] == e);
            let (j, k) = choose|j: int, k: int|
                0 <= j < rules.len() && 0 <= k < rules[j].ends.len() && #[trigger] es[i]
                    == #[trigger] rule_entry(rules[j], k);
            let r = rules[j];
            lemma_rule_entry(r, k);
            let p = r.rest.push(r.ends[k]);
            let w = input.take(e.len as int);
            lemma_encode_injective(w, p);
            assert(input.take(r.rest.len() as int) =~= r.rest) by {
                assert forall|x: int| 0 <= x < r.rest.len() implies input[x] == r.rest[x] by {
                    assert(w[x] == p[x]);
                }
            }
            assert(w[r.rest.len() as int] == p[r.rest.len() as int]);
            assert(rule_matches(rules[j], input));
        },
        None => {
            assert forall|j: int| 0 <= j < rules.len() implies !rule_matches(
                #[trigger] rules[j],
                input,
            ) by {
                if rule_matches(rules[j], input) {
                    let r = rules[j];
                    let n = r.rest.len() as int;
                    let k = choose|k: int| 0 <= k < r.ends.len() && r.ends[k] == input[n];
                    let i = choose|i: int|
                        0 <= i < es.len() && #[trigger] es[i] == #[trigger] rule_entry(r, k);
                    lemma_rule_entry(r, k);
                    assert(input.take(n + 1) =~= r.rest.push(r.ends[k]));
                    assert(entry_matches(es[i], input));
                }
            }
        },
    }
}

/// The reserved word that `input` opens after `lead`, read from a table of the reserved
/// words: its kind and the number of its bytes after `lead`.
pub fn keyword_lookup(t: &Table, lead: u8, input: &[u8]) -> (r: Option<(TokenKind, usize)>)
    requires
        is_keyword_table(*t),
    ensures
        r == match keyword_rule(lead, input@) {
            Some(rule) => Some((rule.kind, rule.rest.len() as usize)),
            None => None,
        },
{
    let g = pool_index(lead);
    let found = t.find(g, input);
    match found {
        Some(e) => {
            proof {
                let g = g->0 as int;
                lemma_lookup(*t, g, input@);
                let rules = bucket_rules(g);
                let j = choose|j: int|
                    0 <= j < rules.len() && rule_matches(#[trigger] rules[j], input@) && e.kind
                        == rules[j].kind && e.len == rules[j].rest.len() + 1;
                let j2 = choose|j: int|
                    0 <= j < rules.len() && rule_matches(#[trigger] rules[j], input@);
                lemma_buckets_ok(g);
                lemma_unique_rule(rules, input@, j, j2);
            }
            Some((e.kind, (e.len - 1) as usize))
        },
        None => {
            proof {
                if g is Some {
                    lemma_lookup(*t, g->0 as int, input@);
                }
            }
            None
        },
    }
}

/// The reserved word that the scanner's unread bytes open after the consumed first byte
/// `b`: its kind and the number of its bytes still to consume, the ending byte excluded.
pub fn matches(b: u8, tk: &Parser<'_>) -> (r: Option<(TokenKind, usize)>)
    requires
        tk.wf(),
    ensures
        r == match keyword_rule(b, tk.rest()) {
            Some(rule) => Some((rule.kind, rule.rest.len() as usize)),
            None => None,
        },
{
    keyword_lookup(tk.keywords(), b, tk.as_slice())
}

} // verus!
