//! The two-pass text assembler: line-oriented mnemonic source in, a
//! [`Program`] out. The first pass tokenizes each line and emits
//! instructions, leaving placeholders for label references; the second pass
//! resolves every reference against the label table and patches the
//! placeholders.

use vstd::prelude::*;
use vstd::slice::{slice_subrange, slice_to_vec};

use crate::VmPtr;
use crate::errors::{AsmError, AsmErrorView, BuildError};
use crate::instruction::{Instruction, InstrView, WORD_SIZE, spec_size};
use crate::program::{
    DUMMY_ADDRESS, Program, is_dummy_jump, lemma_size_pos, lemma_sizes_total_ge_len,
    lemma_sizes_total_push, sizes_total, spec_address, with_target,
};

verus! {

/// True of the ASCII whitespace bytes that separate tokens and surround
/// lines: tab, line feed, vertical tab, form feed, carriage return, space.
pub open spec fn is_space(b: u8) -> bool {
    b == 0x09 || b == 0x0a || b == 0x0b || b == 0x0c || b == 0x0d || b == 0x20
}

/// The ASCII lowercase image of a byte; bytes outside A-Z are unchanged.
pub open spec fn lower(b: u8) -> u8 {
    if 0x41 <= b <= 0x5a {
        (b + 0x20) as u8
    } else {
        b
    }
}

/// A byte sequence, ASCII-lowercased.
pub open spec fn lower_all(s: Seq<u8>) -> Seq<u8> {
    s.map_values(|b: u8| lower(b))
}

/// The index of the first occurrence of `b`, if any.
pub open spec fn find_byte(s: Seq<u8>, b: u8) -> Option<int>
    decreases s.len(),
{
    if s.len() == 0 {
        None
    } else if s[0] == b {
        Some(0)
    } else {
        match find_byte(s.skip(1), b) {
            None => None,
            Some(k) => Some(k + 1),
        }
    }
}

/// What [`find_byte`] finds is an occurrence with none before it; where it
/// finds nothing there is none.
pub proof fn lemma_find_byte(s: Seq<u8>, b: u8)
    ensures
        match find_byte(s, b) {
            Some(k) => 0 <= k < s.len() && s[k] == b && (forall|j: int| 0 <= j < k ==> s[j] != b),
            None => forall|j: int| 0 <= j < s.len() ==> s[j] != b,
        },
    decreases s.len(),
{
    if s.len() > 0 && s[0] != b {
        let t = s.skip(1);
        lemma_find_byte(t, b);
        match find_byte(t, b) {
            Some(k) => {
                assert(s[k + 1] == t[k]);
                assert forall|j: int| 0 <= j < k + 1 implies s[j] != b by {
                    if j >= 1 {
                        assert(s[j] == t[j - 1]);
                    }
                }
            },
            None => {
                assert forall|j: int| 0 <= j < s.len() implies s[j] != b by {
                    if j >= 1 {
                        assert(s[j] == t[j - 1]);
                    }
                }
            },
        }
    }
}

/// An occurrence of `b` at `k` with none before it is what [`find_byte`]
/// finds.
pub proof fn lemma_find_byte_at(s: Seq<u8>, b: u8, k: int)
    requires
        0 <= k < s.len(),
        s[k] == b,
        forall|j: int| 0 <= j < k ==> s[j] != b,
    ensures
        find_byte(s, b) == Some(k),
    decreases k,
{
    if k > 0 {
        lemma_find_byte_at(s.skip(1), b, k - 1);
    }
}

/// The source split at line feeds, each piece without its terminator. A
/// trailing line feed ends the last line rather than opening an empty one.
pub open spec fn split_lines(s: Seq<u8>) -> Seq<Seq<u8>>
    decreases s.len(),
{
    if s.len() == 0 {
        Seq::empty()
    } else {
        match find_byte(s, 0x0a) {
            None => seq![s],
            Some(k) => if 0 <= k < s.len() {
                seq![s.take(k)] + split_lines(s.skip(k + 1))
            } else {
                seq![s]
            },
        }
    }
}

/// The sequence without its leading whitespace.
pub open spec fn trim_front(s: Seq<u8>) -> Seq<u8>
    decreases s.len(),
{
    if s.len() > 0 && is_space(s[0]) {
        trim_front(s.skip(1))
    } else {
        s
    }
}

/// The sequence without its trailing whitespace.
pub open spec fn trim_back(s: Seq<u8>) -> Seq<u8>
    decreases s.len(),
{
    if s.len() > 0 && is_space(s.last()) {
        trim_back(s.drop_last())
    } else {
        s
    }
}

/// The sequence without surrounding whitespace.
pub open spec fn trim(s: Seq<u8>) -> Seq<u8> {
    trim_back(trim_front(s))
}

/// Dropping exactly the leading whitespace is what [`trim_front`] does.
pub proof fn lemma_trim_front_at(s: Seq<u8>, k: int)
    requires
        0 <= k <= s.len(),
        forall|j: int| 0 <= j < k ==> is_space(s[j]),
        k < s.len() ==> !is_space(s[k]),
    ensures
        trim_front(s) == s.skip(k),
    decreases k,
{
    if k == 0 {
        assert(s.skip(0) =~= s);
    } else {
        lemma_trim_front_at(s.skip(1), k - 1);
        assert(s.skip(1).skip(k - 1) =~= s.skip(k));
    }
}

/// Dropping exactly the trailing whitespace is what [`trim_back`] does.
pub proof fn lemma_trim_back_at(s: Seq<u8>, m: int)
    requires
        0 <= m <= s.len(),
        forall|j: int| m <= j < s.len() ==> is_space(s[j]),
        m > 0 ==> !is_space(s[m - 1]),
    ensures
        trim_back(s) == s.take(m),
    decreases s.len() - m,
{
    if m == s.len() {
        assert(s.take(m) =~= s);
    } else {
        lemma_trim_back_at(s.drop_last(), m);
        assert(s.drop_last().take(m) =~= s.take(m));
    }
}

/// The length of the nonspace token at the front of the sequence.
pub open spec fn token_end(s: Seq<u8>) -> int
    decreases s.len(),
{
    if s.len() == 0 || is_space(s[0]) {
        0
    } else {
        1 + token_end(s.skip(1))
    }
}

/// [`token_end`] names the first whitespace position, or the length.
pub proof fn lemma_token_end_at(s: Seq<u8>, t: int)
    requires
        0 <= t <= s.len(),
        forall|j: int| 0 <= j < t ==> !is_space(s[j]),
        t < s.len() ==> is_space(s[t]),
    ensures
        token_end(s) == t,
    decreases t,
{
    if t > 0 {
        lemma_token_end_at(s.skip(1), t - 1);
    }
}

/// The whitespace-separated tokens of a line, in order.
pub open spec fn split_tokens(s: Seq<u8>) -> Seq<Seq<u8>>
    decreases s.len(),
{
    if s.len() == 0 {
        Seq::empty()
    } else if is_space(s[0]) {
        split_tokens(s.skip(1))
    } else {
        let t = token_end(s);
        if 1 <= t <= s.len() {
            seq![s.take(t)] + split_tokens(s.skip(t))
        } else {
            seq![s]
        }
    }
}

/// A line's first token is no longer than the line.
pub proof fn lemma_first_token_len(s: Seq<u8>)
    ensures
        split_tokens(s).len() > 0 ==> split_tokens(s)[0].len() <= s.len(),
    decreases s.len(),
{
    if s.len() > 0 {
        if is_space(s[0]) {
            lemma_first_token_len(s.skip(1));
        }
    }
}

/// True of an ASCII decimal digit.
pub open spec fn is_digit(b: u8) -> bool {
    0x30 <= b <= 0x39
}

/// The value of an all-digit sequence, or nothing where the sequence is
/// empty or holds a non-digit.
pub open spec fn parse_digits(s: Seq<u8>) -> Option<int>
    decreases s.len(),
{
    if s.len() == 0 {
        None
    } else if !is_digit(s.last()) {
        None
    } else if s.len() == 1 {
        Some(s.last() - 0x30)
    } else {
        match parse_digits(s.drop_last()) {
            None => None,
            Some(v) => Some(v * 10 + (s.last() - 0x30)),
        }
    }
}

/// A sequence with a value is all digits, and the value is nonnegative.
pub proof fn lemma_digits_all(s: Seq<u8>)
    ensures
        parse_digits(s) matches Some(v) ==> v >= 0 && (forall|j: int|
            0 <= j < s.len() ==> is_digit(s[j])),
    decreases s.len(),
{
    if s.len() > 1 && parse_digits(s) is Some {
        lemma_digits_all(s.drop_last());
        assert forall|j: int| 0 <= j < s.len() implies is_digit(s[j]) by {
            if j < s.len() - 1 {
                assert(s.drop_last()[j] == s[j]);
            }
        }
    }
}

/// Appending digits never shrinks the value.
pub proof fn lemma_digits_ge_prefix(s: Seq<u8>, n: int)
    requires
        0 <= n <= s.len(),
        parse_digits(s) is Some,
        parse_digits(s.take(n)) is Some,
    ensures
        parse_digits(s).unwrap() >= parse_digits(s.take(n)).unwrap(),
    decreases s.len() - n,
{
    if n == s.len() {
        assert(s.take(n) =~= s);
    } else {
        lemma_digits_all(s);
        lemma_digits_all(s.take(n));
        assert(s.take(n + 1).drop_last() =~= s.take(n));
        assert(s.take(n + 1).last() == s[n]);
        lemma_digits_ge_prefix(s, n + 1);
    }
}

/// The value of a numeric token as an address word: an optional plus sign,
/// then decimal digits, rejected when the value exceeds the word range.
pub open spec fn parse_u32_token(t: Seq<u8>) -> Option<u32> {
    let body = if t.len() >= 1 && t[0] == 0x2b {
        t.skip(1)
    } else {
        t
    };
    match parse_digits(body) {
        None => None,
        Some(v) => if v <= u32::MAX {
            Some(v as u32)
        } else {
            None
        },
    }
}

/// The value of a numeric token as a register index or syscall number.
pub open spec fn parse_u8_token(t: Seq<u8>) -> Option<u8> {
    let body = if t.len() >= 1 && t[0] == 0x2b {
        t.skip(1)
    } else {
        t
    };
    match parse_digits(body) {
        None => None,
        Some(v) => if v <= u8::MAX {
            Some(v as u8)
        } else {
            None
        },
    }
}

/// Whether a byte is token-separating whitespace.
fn is_space_b(b: u8) -> (r: bool)
    ensures
        r == is_space(b),
{
    b == 0x09 || b == 0x0a || b == 0x0b || b == 0x0c || b == 0x0d || b == 0x20
}

/// The ASCII lowercase image of a byte.
fn lower_b(b: u8) -> (r: u8)
    ensures
        r == lower(b),
{
    if 0x41 <= b && b <= 0x5a {
        b + 0x20
    } else {
        b
    }
}

/// Whether the token, lowercased, equals the given mnemonic bytes.
fn eq_lower(t: &[u8], m: &[u8]) -> (r: bool)
    ensures
        r == (lower_all(t@) == m@),
{
    if t.len() != m.len() {
        proof {
            assert(lower_all(t@).len() == t@.len());
        }
        return false;
    }
    let mut i: usize = 0;
    while i < t.len()
        invariant
            t@.len() == m@.len(),
            i <= t@.len(),
            forall|j: int| 0 <= j < i ==> lower(t@[j]) == m@[j],
        decreases t@.len() - i,
    {
        if lower_b(t[i]) != m[i] {
            proof {
                assert(lower_all(t@)[i as int] == lower(t@[i as int]));
            }
            return false;
        }
        i = i + 1;
    }
    proof {
        assert(lower_all(t@) =~= m@);
    }
    true
}

/// Split the source into its lines.
fn split_lines_exec(source: &[u8]) -> (r: Vec<Vec<u8>>)
    ensures
        r@.map_values(|l: Vec<u8>| l@) == split_lines(source@),
{
    let mut lines: Vec<Vec<u8>> = Vec::new();
    let mut pos: usize = 0;
    proof {
        assert(source@.skip(0) =~= source@);
        assert(lines@.map_values(|l: Vec<u8>| l@) =~= Seq::<Seq<u8>>::empty());
    }
    while pos < source.len()
        invariant
            pos <= source@.len(),
            split_lines(source@) == lines@.map_values(|l: Vec<u8>| l@) + split_lines(
                source@.skip(pos as int),
            ),
        decreases source@.len() - pos,
    {
        let ghost rest = source@.skip(pos as int);
        let ghost prev = lines@.map_values(|l: Vec<u8>| l@);
        let mut k: usize = pos;
        while k < source.len() && source[k] != 0x0a
            invariant
                pos <= k <= source@.len(),
                forall|j: int| pos <= j < k ==> source@[j] != 0x0a,
            decreases source@.len() - k,
        {
            k = k + 1;
        }
        proof {
            assert forall|j: int| 0 <= j < k - pos implies rest[j] != 0x0a by {
                assert(rest[j] == source@[pos + j]);
            }
        }
        let line = slice_to_vec(slice_subrange(source, pos, k));
        let ghost piece = source@.subrange(pos as int, k as int);
        lines.push(line);
        proof {
            assert(lines@.map_values(|l: Vec<u8>| l@) =~= prev.push(piece));
        }
        if k == source.len() {
            proof {
                lemma_find_byte(rest, 0x0a);
                if let Some(j) = find_byte(rest, 0x0a) {
                    assert(rest[j] != 0x0a);
                }
                assert(rest =~= piece);
                assert(split_lines(rest) == seq![piece]);
                assert(prev + seq![piece] =~= prev.push(piece));
            }
            pos = k;
            proof {
                assert(split_lines(source@.skip(pos as int)) == Seq::<Seq<u8>>::empty());
                assert(prev.push(piece) + Seq::<Seq<u8>>::empty() =~= prev.push(piece));
            }
        } else {
            proof {
                assert(rest[k - pos as int] == source@[k as int]);
                lemma_find_byte_at(rest, 0x0a, k - pos as int);
                assert(rest.take(k - pos as int) =~= piece);
                assert(rest.skip(k - pos as int + 1) =~= source@.skip(k as int + 1));
                assert(split_lines(rest) == seq![piece] + split_lines(source@.skip(k as int + 1)));
                assert(prev + (seq![piece] + split_lines(source@.skip(k as int + 1)))
                    =~= prev.push(piece) + split_lines(source@.skip(k as int + 1)));
            }
            pos = k + 1;
        }
    }
    proof {
        assert(source@.skip(pos as int) =~= Seq::<u8>::empty());
        assert(split_lines(source@.skip(pos as int)) == Seq::<Seq<u8>>::empty());
        assert(lines@.map_values(|l: Vec<u8>| l@) + Seq::<Seq<u8>>::empty() =~= lines@.map_values(
            |l: Vec<u8>| l@,
        ));
    }
    lines
}

/// The line without surrounding whitespace.
fn trim_slice<'a>(line: &'a [u8]) -> (r: &'a [u8])
    ensures
        r@ == trim(line@),
{
    let mut start: usize = 0;
    while start < line.len() && is_space_b(line[start])
        invariant
            start <= line@.len(),
            forall|j: int| 0 <= j < start ==> is_space(line@[j]),
        decreases line@.len() - start,
    {
        start = start + 1;
    }
    proof {
        lemma_trim_front_at(line@, start as int);
    }
    if start == line.len() {
        let r = slice_subrange(line, 0, 0);
        proof {
            assert(line@.skip(start as int) =~= Seq::<u8>::empty());
            assert(r@ =~= trim(line@));
        }
        return r;
    }
    let mut end: usize = line.len();
    while end > start && is_space_b(line[end - 1])
        invariant
            start < end <= line@.len() || end == start,
            forall|j: int| end <= j < line@.len() ==> is_space(line@[j]),
            !is_space(line@[start as int]),
        decreases end,
    {
        end = end - 1;
    }
    proof {
        let tf = line@.skip(start as int);
        assert forall|j: int| end - start <= j < tf.len() implies is_space(tf[j]) by {
            assert(tf[j] == line@[start + j]);
        }
        assert(end > start);
        assert(tf[end - start - 1] == line@[end - 1]);
        lemma_trim_back_at(tf, end - start as int);
        assert(tf.take(end - start as int) =~= line@.subrange(start as int, end as int));
    }
    slice_subrange(line, start, end)
}

/// The whitespace-separated tokens of a line.
fn tokens_of(line: &[u8]) -> (r: Vec<Vec<u8>>)
    ensures
        r@.map_values(|t: Vec<u8>| t@) == split_tokens(line@),
{
    let mut toks: Vec<Vec<u8>> = Vec::new();
    let mut pos: usize = 0;
    proof {
        assert(line@.skip(0) =~= line@);
        assert(toks@.map_values(|t: Vec<u8>| t@) =~= Seq::<Seq<u8>>::empty());
    }
    while pos < line.len()
        invariant
            pos <= line@.len(),
            split_tokens(line@) == toks@.map_values(|t: Vec<u8>| t@) + split_tokens(
                line@.skip(pos as int),
            ),
        decreases line@.len() - pos,
    {
        if is_space_b(line[pos]) {
            proof {
                assert(line@.skip(pos as int)[0] == line@[pos as int]);
                assert(line@.skip(pos as int).skip(1) =~= line@.skip(pos as int + 1));
            }
            pos = pos + 1;
        } else {
            let ghost rest = line@.skip(pos as int);
            let start = pos;
            let mut k: usize = pos;
            while k < line.len() && !is_space_b(line[k])
                invariant
                    start <= k <= line@.len(),
                    forall|j: int| start <= j < k ==> !is_space(line@[j]),
                decreases line@.len() - k,
            {
                k = k + 1;
            }
            proof {
                assert forall|j: int| 0 <= j < k - start implies !is_space(rest[j]) by {
                    assert(rest[j] == line@[start + j]);
                }
                if k < line@.len() {
                    assert(rest[k - start as int] == line@[k as int]);
                }
                lemma_token_end_at(rest, k - start as int);
                assert(rest.take(k - start as int) =~= line@.subrange(start as int, k as int));
                assert(rest.skip(k - start as int) =~= line@.skip(k as int));
            }
            let tok = slice_to_vec(slice_subrange(line, start, k));
            toks.push(tok);
            proof {
                assert(toks@.map_values(|t: Vec<u8>| t@) =~= toks@.drop_last().map_values(
                    |t: Vec<u8>| t@,
                ).push(line@.subrange(start as int, k as int)));
                assert(split_tokens(line@) =~= toks@.map_values(|t: Vec<u8>| t@) + split_tokens(
                    line@.skip(k as int),
                ));
            }
            pos = k;
        }
    }
    proof {
        assert(split_tokens(line@.skip(pos as int)) =~= Seq::<Seq<u8>>::empty());
        assert(toks@.map_values(|t: Vec<u8>| t@) + Seq::<Seq<u8>>::empty() =~= toks@.map_values(
            |t: Vec<u8>| t@,
        ));
    }
    toks
}

/// Parse a numeric token as an address word.
fn parse_u32_bytes(t: &[u8]) -> (r: Option<u32>)
    ensures
        r == parse_u32_token(t@),
{
    let body_start: usize = if t.len() >= 1 && t[0] == 0x2b {
        1
    } else {
        0
    };
    let ghost body = if body_start == 1 {
        t@.skip(1)
    } else {
        t@
    };
    if t.len() == body_start {
        return None;
    }
    let mut acc: u64 = 0;
    let mut i: usize = body_start;
    while i < t.len()
        invariant
            (body_start == 1) <==> (t@.len() >= 1 && t@[0] == 0x2b),
            body == (if body_start == 1 {
                t@.skip(1)
            } else {
                t@
            }),
            body_start <= i <= t@.len(),
            body_start <= 1,
            body.len() == t@.len() - body_start,
            acc <= u32::MAX,
            i > body_start ==> parse_digits(body.take(i - body_start as int)) == Some(acc as int),
            i == body_start ==> acc == 0,
            t@.len() > body_start,
        decreases t@.len() - i,
    {
        let b = t[i];
        proof {
            assert(body[i - body_start as int] == t@[i as int]);
        }
        if !(0x30 <= b && b <= 0x39) {
            proof {
                lemma_digits_all(body);
            }
            return None;
        }
        let d = (b - 0x30) as u64;
        proof {
            let n = i - body_start as int;
            assert(body.take(n + 1).drop_last() =~= body.take(n));
            assert(body.take(n + 1).last() == body[n]);
            if i > body_start {
                assert(parse_digits(body.take(n + 1)) == Some(acc as int * 10 + (b - 0x30)));
            } else {
                assert(body.take(1).len() == 1);
                assert(parse_digits(body.take(n + 1)) == Some((b - 0x30) as int));
            }
        }
        if acc > 429496729 || (acc == 429496729 && d > 5) {
            proof {
                let n = i - body_start as int;
                assert(acc as int * 10 + (b - 0x30) > u32::MAX);
                if parse_digits(body) is Some {
                    lemma_digits_ge_prefix(body, n + 1);
                }
            }
            return None;
        }
        acc = acc * 10 + d;
        i = i + 1;
    }
    proof {
        assert(body.take(t@.len() - body_start as int) =~= body);
    }
    Some(acc as u32)
}

/// Parse a numeric token as a register index or syscall number.
fn parse_u8_bytes(t: &[u8]) -> (r: Option<u8>)
    ensures
        r == parse_u8_token(t@),
{
    let r32 = parse_u32_bytes(t);
    proof {
        let body = if t@.len() >= 1 && t@[0] == 0x2b {
            t@.skip(1)
        } else {
            t@
        };
        lemma_digits_all(body);
        assert(parse_u32_token(t@) == (match parse_digits(body) {
            None => None::<u32>,
            Some(v) => if v <= u32::MAX {
                Some(v as u32)
            } else {
                None
            },
        }));
        assert(parse_u8_token(t@) == (match parse_digits(body) {
            None => None::<u8>,
            Some(v) => if v <= u8::MAX {
                Some(v as u8)
            } else {
                None
            },
        }));
    }
    match r32 {
        None => None,
        Some(v) => if v <= 0xff {
            Some(v as u8)
        } else {
            None
        },
    }
}

/// The bytes of `#`.
pub open spec fn mn_hash() -> Seq<u8> {
    seq![0x23u8]
}

/// The bytes of `//`.
pub open spec fn mn_slashes() -> Seq<u8> {
    seq![0x2fu8, 0x2f]
}

/// The bytes of `add`.
pub open spec fn mn_add() -> Seq<u8> {
    seq![0x61u8, 0x64, 0x64]
}

/// The bytes of `call`.
pub open spec fn mn_call() -> Seq<u8> {
    seq![0x63u8, 0x61, 0x6c, 0x6c]
}

/// The bytes of `compare`.
pub open spec fn mn_compare() -> Seq<u8> {
    seq![0x63u8, 0x6f, 0x6d, 0x70, 0x61, 0x72, 0x65]
}

/// The bytes of `copycodememory`.
pub open spec fn mn_copycodememory() -> Seq<u8> {
    seq![0x63u8, 0x6f, 0x70, 0x79, 0x63, 0x6f, 0x64, 0x65, 0x6d, 0x65, 0x6d, 0x6f, 0x72, 0x79]
}

/// The bytes of `datastring`.
pub open spec fn mn_datastring() -> Seq<u8> {
    seq![0x64u8, 0x61, 0x74, 0x61, 0x73, 0x74, 0x72, 0x69, 0x6e, 0x67]
}

/// The bytes of `decrement`.
pub open spec fn mn_decrement() -> Seq<u8> {
    seq![0x64u8, 0x65, 0x63, 0x72, 0x65, 0x6d, 0x65, 0x6e, 0x74]
}

/// The bytes of `decrementregister`.
pub open spec fn mn_decrementregister() -> Seq<u8> {
    seq![0x64u8, 0x65, 0x63, 0x72, 0x65, 0x6d, 0x65, 0x6e, 0x74, 0x72, 0x65, 0x67, 0x69, 0x73, 0x74, 0x65, 0x72]
}

/// The bytes of `deref16`.
pub open spec fn mn_deref16() -> Seq<u8> {
    seq![0x64u8, 0x65, 0x72, 0x65, 0x66, 0x31, 0x36]
}

/// The bytes of `deref32`.
pub open spec fn mn_deref32() -> Seq<u8> {
    seq![0x64u8, 0x65, 0x72, 0x65, 0x66, 0x33, 0x32]
}

/// The bytes of `deref8`.
pub open spec fn mn_deref8() -> Seq<u8> {
    seq![0x64u8, 0x65, 0x72, 0x65, 0x66, 0x38]
}

/// The bytes of `div`.
pub open spec fn mn_div() -> Seq<u8> {
    seq![0x64u8, 0x69, 0x76]
}

/// The bytes of `halt`.
pub open spec fn mn_halt() -> Seq<u8> {
    seq![0x68u8, 0x61, 0x6c, 0x74]
}

/// The bytes of `increment`.
pub open spec fn mn_increment() -> Seq<u8> {
    seq![0x69u8, 0x6e, 0x63, 0x72, 0x65, 0x6d, 0x65, 0x6e, 0x74]
}

/// The bytes of `incrementregister`.
pub open spec fn mn_incrementregister() -> Seq<u8> {
    seq![0x69u8, 0x6e, 0x63, 0x72, 0x65, 0x6d, 0x65, 0x6e, 0x74, 0x72, 0x65, 0x67, 0x69, 0x73, 0x74, 0x65, 0x72]
}

/// The bytes of `jump`.
pub open spec fn mn_jump() -> Seq<u8> {
    seq![0x6au8, 0x75, 0x6d, 0x70]
}

/// The bytes of `jumpequal`.
pub open spec fn mn_jumpequal() -> Seq<u8> {
    seq![0x6au8, 0x75, 0x6d, 0x70, 0x65, 0x71, 0x75, 0x61, 0x6c]
}

/// The bytes of `jumpgreater`.
pub open spec fn mn_jumpgreater() -> Seq<u8> {
    seq![0x6au8, 0x75, 0x6d, 0x70, 0x67, 0x72, 0x65, 0x61, 0x74, 0x65, 0x72]
}

/// The bytes of `jumpgreaterequal`.
pub open spec fn mn_jumpgreaterequal() -> Seq<u8> {
    seq![0x6au8, 0x75, 0x6d, 0x70, 0x67, 0x72, 0x65, 0x61, 0x74, 0x65, 0x72, 0x65, 0x71, 0x75, 0x61, 0x6c]
}

/// The bytes of `jumpless`.
pub open spec fn mn_jumpless() -> Seq<u8> {
    seq![0x6au8, 0x75, 0x6d, 0x70, 0x6c, 0x65, 0x73, 0x73]
}

/// The bytes of `jumplessequal`.
pub open spec fn mn_jumplessequal() -> Seq<u8> {
    seq![0x6au8, 0x75, 0x6d, 0x70, 0x6c, 0x65, 0x73, 0x73, 0x65, 0x71, 0x75, 0x61, 0x6c]
}

/// The bytes of `jumpnonzero`.
pub open spec fn mn_jumpnonzero() -> Seq<u8> {
    seq![0x6au8, 0x75, 0x6d, 0x70, 0x6e, 0x6f, 0x6e, 0x7a, 0x65, 0x72, 0x6f]
}

/// The bytes of `jumpnotequal`.
pub open spec fn mn_jumpnotequal() -> Seq<u8> {
    seq![0x6au8, 0x75, 0x6d, 0x70, 0x6e, 0x6f, 0x74, 0x65, 0x71, 0x75, 0x61, 0x6c]
}

/// The bytes of `jumpzero`.
pub open spec fn mn_jumpzero() -> Seq<u8> {
    seq![0x6au8, 0x75, 0x6d, 0x70, 0x7a, 0x65, 0x72, 0x6f]
}

/// The bytes of `label`.
pub open spec fn mn_label() -> Seq<u8> {
    seq![0x6cu8, 0x61, 0x62, 0x65, 0x6c]
}

/// The bytes of `load16`.
pub open spec fn mn_load16() -> Seq<u8> {
    seq![0x6cu8, 0x6f, 0x61, 0x64, 0x31, 0x36]
}

/// The bytes of `load32`.
pub open spec fn mn_load32() -> Seq<u8> {
    seq![0x6cu8, 0x6f, 0x61, 0x64, 0x33, 0x32]
}

/// The bytes of `load8`.
pub open spec fn mn_load8() -> Seq<u8> {
    seq![0x6cu8, 0x6f, 0x61, 0x64, 0x38]
}

/// The bytes of `mul`.
pub open spec fn mn_mul() -> Seq<u8> {
    seq![0x6du8, 0x75, 0x6c]
}

/// The bytes of `nop`.
pub open spec fn mn_nop() -> Seq<u8> {
    seq![0x6eu8, 0x6f, 0x70]
}

/// The bytes of `pop`.
pub open spec fn mn_pop() -> Seq<u8> {
    seq![0x70u8, 0x6f, 0x70]
}

/// The bytes of `popregister`.
pub open spec fn mn_popregister() -> Seq<u8> {
    seq![0x70u8, 0x6f, 0x70, 0x72, 0x65, 0x67, 0x69, 0x73, 0x74, 0x65, 0x72]
}

/// The bytes of `push`.
pub open spec fn mn_push() -> Seq<u8> {
    seq![0x70u8, 0x75, 0x73, 0x68]
}

/// The bytes of `pushregister`.
pub open spec fn mn_pushregister() -> Seq<u8> {
    seq![0x70u8, 0x75, 0x73, 0x68, 0x72, 0x65, 0x67, 0x69, 0x73, 0x74, 0x65, 0x72]
}

/// The bytes of `readstackpointer`.
pub open spec fn mn_readstackpointer() -> Seq<u8> {
    seq![0x72u8, 0x65, 0x61, 0x64, 0x73, 0x74, 0x61, 0x63, 0x6b, 0x70, 0x6f, 0x69, 0x6e, 0x74, 0x65, 0x72]
}

/// The bytes of `return`.
pub open spec fn mn_return() -> Seq<u8> {
    seq![0x72u8, 0x65, 0x74, 0x75, 0x72, 0x6e]
}

/// The bytes of `set`.
pub open spec fn mn_set() -> Seq<u8> {
    seq![0x73u8, 0x65, 0x74]
}

/// The bytes of `setregister`.
pub open spec fn mn_setregister() -> Seq<u8> {
    seq![0x73u8, 0x65, 0x74, 0x72, 0x65, 0x67, 0x69, 0x73, 0x74, 0x65, 0x72]
}

/// The bytes of `store16`.
pub open spec fn mn_store16() -> Seq<u8> {
    seq![0x73u8, 0x74, 0x6f, 0x72, 0x65, 0x31, 0x36]
}

/// The bytes of `store32`.
pub open spec fn mn_store32() -> Seq<u8> {
    seq![0x73u8, 0x74, 0x6f, 0x72, 0x65, 0x33, 0x32]
}

/// The bytes of `store8`.
pub open spec fn mn_store8() -> Seq<u8> {
    seq![0x73u8, 0x74, 0x6f, 0x72, 0x65, 0x38]
}

/// The bytes of `sub`.
pub open spec fn mn_sub() -> Seq<u8> {
    seq![0x73u8, 0x75, 0x62]
}

/// The bytes of `swap`.
pub open spec fn mn_swap() -> Seq<u8> {
    seq![0x73u8, 0x77, 0x61, 0x70]
}

/// The bytes of `syscall`.
pub open spec fn mn_syscall() -> Seq<u8> {
    seq![0x73u8, 0x79, 0x73, 0x63, 0x61, 0x6c, 0x6c]
}

/// The bytes of `write16`.
pub open spec fn mn_write16() -> Seq<u8> {
    seq![0x77u8, 0x72, 0x69, 0x74, 0x65, 0x31, 0x36]
}

/// The bytes of `write32`.
pub open spec fn mn_write32() -> Seq<u8> {
    seq![0x77u8, 0x72, 0x69, 0x74, 0x65, 0x33, 0x32]
}

/// The bytes of `write8`.
pub open spec fn mn_write8() -> Seq<u8> {
    seq![0x77u8, 0x72, 0x69, 0x74, 0x65, 0x38]
}

/// The bytes of `writestackpointer`.
pub open spec fn mn_writestackpointer() -> Seq<u8> {
    seq![0x77u8, 0x72, 0x69, 0x74, 0x65, 0x73, 0x74, 0x61, 0x63, 0x6b, 0x70, 0x6f, 0x69, 0x6e, 0x74, 0x65, 0x72]
}

/// One directive of a source line: nothing, a label declaration, a direct
/// instruction, or a placeholder with the label it references.
pub enum LineItem {
    Blank,
    DeclareLabel(Seq<u8>),
    Emit(InstrView),
    EmitJump(InstrView, Seq<u8>),
    EmitCopy(Seq<u8>),
}

/// Instructions carried by a line directive are well-formed, and carried
/// placeholders really are placeholders.
pub open spec fn line_item_wf(item: LineItem) -> bool {
    match item {
        LineItem::Emit(i) => i.wf() && spec_size(i) <= u32::MAX,
        LineItem::EmitJump(d, _) => d.wf() && is_dummy_jump(d),
        _ => true,
    }
}

/// What a source line means: empty and comment lines mean nothing; a
/// `label` line declares a label; every other recognized mnemonic line
/// emits one instruction, a placeholder where it references a label. The
/// first token selects the mnemonic case-insensitively; numeric operands
/// are decimal. Unknown mnemonics and wrong argument counts name the
/// lowercased first token.
pub open spec fn spec_parse_line(line: Seq<u8>) -> Result<LineItem, AsmErrorView> {
    let lt = trim(line);
    let toks = split_tokens(lt);
    if toks.len() == 0 {
        Ok(LineItem::Blank)
    } else {
        let cmd = lower_all(toks[0]);
        if cmd == mn_hash() || cmd == mn_slashes() {
            Ok(LineItem::Blank)
        } else if cmd == mn_label() && toks.len() == 2 {
            Ok(LineItem::DeclareLabel(toks[1]))
        } else if cmd == mn_nop() && toks.len() == 1 {
            Ok(LineItem::Emit(InstrView::Nop))
        } else if cmd == mn_halt() && toks.len() == 1 {
            Ok(LineItem::Emit(InstrView::Halt))
        } else if cmd == mn_load8() && toks.len() == 2 {
            match parse_u32_token(toks[1]) {
                Some(p) => Ok(LineItem::Emit(InstrView::Load8(p))),
                None => Err(AsmErrorView::InvalidNumber(toks[1])),
            }
        } else if cmd == mn_store8() && toks.len() == 2 {
            match parse_u32_token(toks[1]) {
                Some(p) => Ok(LineItem::Emit(InstrView::Store8(p))),
                None => Err(AsmErrorView::InvalidNumber(toks[1])),
            }
        } else if cmd == mn_load16() && toks.len() == 2 {
            match parse_u32_token(toks[1]) {
                Some(p) => Ok(LineItem::Emit(InstrView::Load16(p))),
                None => Err(AsmErrorView::InvalidNumber(toks[1])),
            }
        } else if cmd == mn_store16() && toks.len() == 2 {
            match parse_u32_token(toks[1]) {
                Some(p) => Ok(LineItem::Emit(InstrView::Store16(p))),
                None => Err(AsmErrorView::InvalidNumber(toks[1])),
            }
        } else if cmd == mn_load32() && toks.len() == 2 {
            match parse_u32_token(toks[1]) {
                Some(p) => Ok(LineItem::Emit(InstrView::Load32(p))),
                None => Err(AsmErrorView::InvalidNumber(toks[1])),
            }
        } else if cmd == mn_store32() && toks.len() == 2 {
            match parse_u32_token(toks[1]) {
                Some(p) => Ok(LineItem::Emit(InstrView::Store32(p))),
                None => Err(AsmErrorView::InvalidNumber(toks[1])),
            }
        } else if cmd == mn_set() && toks.len() == 2 {
            match parse_u32_token(toks[1]) {
                Some(p) => Ok(LineItem::Emit(InstrView::SetMain(p))),
                None => Err(AsmErrorView::InvalidNumber(toks[1])),
            }
        } else if cmd == mn_deref8() && toks.len() == 2 {
            match parse_u8_token(toks[1]) {
                Some(x) => Ok(LineItem::Emit(InstrView::Deref8(x))),
                None => Err(AsmErrorView::InvalidNumber(toks[1])),
            }
        } else if cmd == mn_deref16() && toks.len() == 2 {
            match parse_u8_token(toks[1]) {
                Some(x) => Ok(LineItem::Emit(InstrView::Deref16(x))),
                None => Err(AsmErrorView::InvalidNumber(toks[1])),
            }
        } else if cmd == mn_deref32() && toks.len() == 2 {
            match parse_u8_token(toks[1]) {
                Some(x) => Ok(LineItem::Emit(InstrView::Deref32(x))),
                None => Err(AsmErrorView::InvalidNumber(toks[1])),
            }
        } else if cmd == mn_syscall() && toks.len() == 2 {
            match parse_u8_token(toks[1]) {
                Some(x) => Ok(LineItem::Emit(InstrView::Syscall(x))),
                None => Err(AsmErrorView::InvalidNumber(toks[1])),
            }
        } else if cmd == mn_copycodememory() && toks.len() == 2 {
            Ok(LineItem::EmitCopy(toks[1]))
        } else if cmd == mn_datastring() {
            let payload = trim(lt.skip(10));
            if payload.contains(0) {
                Err(AsmErrorView::InteriorNul)
            } else if payload.len() + 6 > u32::MAX {
                Err(AsmErrorView::TooLarge)
            } else {
                Ok(LineItem::Emit(InstrView::Data((payload.len() + 1) as u32, payload.push(0))))
            }
        } else if cmd == mn_swap() && toks.len() == 2 {
            match parse_u8_token(toks[1]) {
                Some(x) => Ok(LineItem::Emit(InstrView::Swap(x))),
                None => Err(AsmErrorView::InvalidNumber(toks[1])),
            }
        } else if cmd == mn_write8() && toks.len() == 2 {
            match parse_u8_token(toks[1]) {
                Some(x) => Ok(LineItem::Emit(InstrView::Write8(x))),
                None => Err(AsmErrorView::InvalidNumber(toks[1])),
            }
        } else if cmd == mn_write16() && toks.len() == 2 {
            match parse_u8_token(toks[1]) {
                Some(x) => Ok(LineItem::Emit(InstrView::Write16(x))),
                None => Err(AsmErrorView::InvalidNumber(toks[1])),
            }
        } else if cmd == mn_write32() && toks.len() == 2 {
            match parse_u8_token(toks[1]) {
                Some(x) => Ok(LineItem::Emit(InstrView::Write32(x))),
                None => Err(AsmErrorView::InvalidNumber(toks[1])),
            }
        } else if cmd == mn_readstackpointer() && toks.len() == 1 {
            Ok(LineItem::Emit(InstrView::ReadStackPointer))
        } else if cmd == mn_writestackpointer() && toks.len() == 1 {
            Ok(LineItem::Emit(InstrView::WriteStackPointer))
        } else if cmd == mn_jump() && toks.len() == 2 {
            Ok(LineItem::EmitJump(InstrView::Jump(DUMMY_ADDRESS), toks[1]))
        } else if cmd == mn_call() && toks.len() == 2 {
            Ok(LineItem::EmitJump(InstrView::Call(DUMMY_ADDRESS), toks[1]))
        } else if cmd == mn_return() && toks.len() == 1 {
            Ok(LineItem::Emit(InstrView::Return))
        } else if cmd == mn_increment() && toks.len() == 1 {
            Ok(LineItem::Emit(InstrView::Increment))
        } else if cmd == mn_decrement() && toks.len() == 1 {
            Ok(LineItem::Emit(InstrView::Decrement))
        } else if cmd == mn_add() && toks.len() == 2 {
            match parse_u8_token(toks[1]) {
                Some(x) => Ok(LineItem::Emit(InstrView::Add(x))),
                None => Err(AsmErrorView::InvalidNumber(toks[1])),
            }
        } else if cmd == mn_sub() && toks.len() == 2 {
            match parse_u8_token(toks[1]) {
                Some(x) => Ok(LineItem::Emit(InstrView::Sub(x))),
                None => Err(AsmErrorView::InvalidNumber(toks[1])),
            }
        } else if cmd == mn_compare() && toks.len() == 2 {
            match parse_u8_token(toks[1]) {
                Some(x) => Ok(LineItem::Emit(InstrView::Compare(x))),
                None => Err(AsmErrorView::InvalidNumber(toks[1])),
            }
        } else if cmd == mn_jumpequal() && toks.len() == 2 {
            Ok(LineItem::EmitJump(InstrView::JumpEqual(DUMMY_ADDRESS), toks[1]))
        } else if cmd == mn_jumpnotequal() && toks.len() == 2 {
            Ok(LineItem::EmitJump(InstrView::JumpNotEqual(DUMMY_ADDRESS), toks[1]))
        } else if cmd == mn_jumpgreater() && toks.len() == 2 {
            Ok(LineItem::EmitJump(InstrView::JumpGreater(DUMMY_ADDRESS), toks[1]))
        } else if cmd == mn_jumpless() && toks.len() == 2 {
            Ok(LineItem::EmitJump(InstrView::JumpLess(DUMMY_ADDRESS), toks[1]))
        } else if cmd == mn_jumpgreaterequal() && toks.len() == 2 {
            Ok(LineItem::EmitJump(InstrView::JumpGreaterEqual(DUMMY_ADDRESS), toks[1]))
        } else if cmd == mn_jumplessequal() && toks.len() == 2 {
            Ok(LineItem::EmitJump(InstrView::JumpLessEqual(DUMMY_ADDRESS), toks[1]))
        } else if cmd == mn_jumpzero() && toks.len() == 2 {
            Ok(LineItem::EmitJump(InstrView::JumpZero(DUMMY_ADDRESS), toks[1]))
        } else if cmd == mn_jumpnonzero() && toks.len() == 2 {
            Ok(LineItem::EmitJump(InstrView::JumpNonzero(DUMMY_ADDRESS), toks[1]))
        } else if cmd == mn_push() && toks.len() == 1 {
            Ok(LineItem::Emit(InstrView::Push))
        } else if cmd == mn_pop() && toks.len() == 1 {
            Ok(LineItem::Emit(InstrView::Pop))
        } else if cmd == mn_pushregister() && toks.len() == 2 {
            match parse_u8_token(toks[1]) {
                Some(x) => Ok(LineItem::Emit(InstrView::PushRegister(x))),
                None => Err(AsmErrorView::InvalidNumber(toks[1])),
            }
        } else if cmd == mn_popregister() && toks.len() == 2 {
            match parse_u8_token(toks[1]) {
                Some(x) => Ok(LineItem::Emit(InstrView::PopRegister(x))),
                None => Err(AsmErrorView::InvalidNumber(toks[1])),
            }
        } else if cmd == mn_mul() && toks.len() == 2 {
            match parse_u8_token(toks[1]) {
                Some(x) => Ok(LineItem::Emit(InstrView::Mul(x))),
                None => Err(AsmErrorView::InvalidNumber(toks[1])),
            }
        } else if cmd == mn_div() && toks.len() == 2 {
            match parse_u8_token(toks[1]) {
                Some(x) => Ok(LineItem::Emit(InstrView::Div(x))),
                None => Err(AsmErrorView::InvalidNumber(toks[1])),
            }
        } else if cmd == mn_incrementregister() && toks.len() == 2 {
            match parse_u8_token(toks[1]) {
                Some(x) => Ok(LineItem::Emit(InstrView::IncrementRegister(x))),
                None => Err(AsmErrorView::InvalidNumber(toks[1])),
            }
        } else if cmd == mn_decrementregister() && toks.len() == 2 {
            match parse_u8_token(toks[1]) {
                Some(x) => Ok(LineItem::Emit(InstrView::DecrementRegister(x))),
                None => Err(AsmErrorView::InvalidNumber(toks[1])),
            }
        } else if cmd == mn_setregister() && toks.len() == 3 {
            match parse_u8_token(toks[1]) {
                None => Err(AsmErrorView::InvalidNumber(toks[1])),
                Some(x) => match parse_u32_token(toks[2]) {
                    None => Err(AsmErrorView::InvalidNumber(toks[2])),
                    Some(val) => Ok(LineItem::Emit(InstrView::SetRegister(x, val))),
                },
            }
        } else {
            Err(AsmErrorView::UnknownCommand(cmd))
        }
    }
}

/// The executable counterpart of a [`LineItem`].
enum ExecItem {
    Blank,
    DeclareLabel(Vec<u8>),
    Emit(Instruction),
    EmitJump(Instruction, Vec<u8>),
    EmitCopy(Vec<u8>),
}

impl View for ExecItem {
    type V = LineItem;

    closed spec fn view(&self) -> LineItem {
        match self {
            ExecItem::Blank => LineItem::Blank,
            ExecItem::DeclareLabel(n) => LineItem::DeclareLabel(n@),
            ExecItem::Emit(i) => LineItem::Emit(i@),
            ExecItem::EmitJump(d, n) => LineItem::EmitJump(d@, n@),
            ExecItem::EmitCopy(n) => LineItem::EmitCopy(n@),
        }
    }
}

/// Parse one source line into its directive.
#[verifier::rlimit(100)]
#[verifier::spinoff_prover]
#[verifier::loop_isolation(false)]
fn parse_line(line: &[u8]) -> (r: Result<ExecItem, AsmError>)
    ensures
        match r {
            Ok(item) => spec_parse_line(line@) == Ok::<LineItem, AsmErrorView>(item@)
                && line_item_wf(item@),
            Err(e) => spec_parse_line(line@) == Err::<LineItem, AsmErrorView>(e@),
        },
{
    let lt = trim_slice(line);
    let toks = tokens_of(lt);
    let ghost stoks = split_tokens(trim(line@));
    if toks.len() == 0 {
        Ok(ExecItem::Blank)
    } else {
        let first = toks[0].as_slice();
        proof {
            assert(stoks[0] == toks@[0]@);
        }
        let m_hash: [u8; 1] = [0x23u8];
        proof { assert(m_hash@ =~= mn_hash()); }
        let m_slashes: [u8; 2] = [0x2fu8, 0x2f];
        proof { assert(m_slashes@ =~= mn_slashes()); }
        let m_add: [u8; 3] = [0x61u8, 0x64, 0x64];
        proof { assert(m_add@ =~= mn_add()); }
        let m_call: [u8; 4] = [0x63u8, 0x61, 0x6c, 0x6c];
        proof { assert(m_call@ =~= mn_call()); }
        let m_compare: [u8; 7] = [0x63u8, 0x6f, 0x6d, 0x70, 0x61, 0x72, 0x65];
        proof { assert(m_compare@ =~= mn_compare()); }
        let m_copycodememory: [u8; 14] = [0x63u8, 0x6f, 0x70, 0x79, 0x63, 0x6f, 0x64, 0x65, 0x6d, 0x65, 0x6d, 0x6f, 0x72, 0x79];
        proof { assert(m_copycodememory@ =~= mn_copycodememory()); }
        let m_datastring: [u8; 10] = [0x64u8, 0x61, 0x74, 0x61, 0x73, 0x74, 0x72, 0x69, 0x6e, 0x67];
        proof { assert(m_datastring@ =~= mn_datastring()); }
        let m_decrement: [u8; 9] = [0x64u8, 0x65, 0x63, 0x72, 0x65, 0x6d, 0x65, 0x6e, 0x74];
        proof { assert(m_decrement@ =~= mn_decrement()); }
        let m_decrementregister: [u8; 17] = [0x64u8, 0x65, 0x63, 0x72, 0x65, 0x6d, 0x65, 0x6e, 0x74, 0x72, 0x65, 0x67, 0x69, 0x73, 0x74, 0x65, 0x72];
        proof { assert(m_decrementregister@ =~= mn_decrementregister()); }
        let m_deref16: [u8; 7] = [0x64u8, 0x65, 0x72, 0x65, 0x66, 0x31, 0x36];
        proof { assert(m_deref16@ =~= mn_deref16()); }
        let m_deref32: [u8; 7] = [0x64u8, 0x65, 0x72, 0x65, 0x66, 0x33, 0x32];
        proof { assert(m_deref32@ =~= mn_deref32()); }
        let m_deref8: [u8; 6] = [0x64u8, 0x65, 0x72, 0x65, 0x66, 0x38];
        proof { assert(m_deref8@ =~= mn_deref8()); }
        let m_div: [u8; 3] = [0x64u8, 0x69, 0x76];
        proof { assert(m_div@ =~= mn_div()); }
        let m_halt: [u8; 4] = [0x68u8, 0x61, 0x6c, 0x74];
        proof { assert(m_halt@ =~= mn_halt()); }
        let m_increment: [u8; 9] = [0x69u8, 0x6e, 0x63, 0x72, 0x65, 0x6d, 0x65, 0x6e, 0x74];
        proof { assert(m_increment@ =~= mn_increment()); }
        let m_incrementregister: [u8; 17] = [0x69u8, 0x6e, 0x63, 0x72, 0x65, 0x6d, 0x65, 0x6e, 0x74, 0x72, 0x65, 0x67, 0x69, 0x73, 0x74, 0x65, 0x72];
        proof { assert(m_incrementregister@ =~= mn_incrementregister()); }
        let m_jump: [u8; 4] = [0x6au8, 0x75, 0x6d, 0x70];
        proof { assert(m_jump@ =~= mn_jump()); }
        let m_jumpequal: [u8; 9] = [0x6au8, 0x75, 0x6d, 0x70, 0x65, 0x71, 0x75, 0x61, 0x6c];
        proof { assert(m_jumpequal@ =~= mn_jumpequal()); }
        let m_jumpgreater: [u8; 11] = [0x6au8, 0x75, 0x6d, 0x70, 0x67, 0x72, 0x65, 0x61, 0x74, 0x65, 0x72];
        proof { assert(m_jumpgreater@ =~= mn_jumpgreater()); }
        let m_jumpgreaterequal: [u8; 16] = [0x6au8, 0x75, 0x6d, 0x70, 0x67, 0x72, 0x65, 0x61, 0x74, 0x65, 0x72, 0x65, 0x71, 0x75, 0x61, 0x6c];
        proof { assert(m_jumpgreaterequal@ =~= mn_jumpgreaterequal()); }
        let m_jumpless: [u8; 8] = [0x6au8, 0x75, 0x6d, 0x70, 0x6c, 0x65, 0x73, 0x73];
        proof { assert(m_jumpless@ =~= mn_jumpless()); }
        let m_jumplessequal: [u8; 13] = [0x6au8, 0x75, 0x6d, 0x70, 0x6c, 0x65, 0x73, 0x73, 0x65, 0x71, 0x75, 0x61, 0x6c];
        proof { assert(m_jumplessequal@ =~= mn_jumplessequal()); }
        let m_jumpnonzero: [u8; 11] = [0x6au8, 0x75, 0x6d, 0x70, 0x6e, 0x6f, 0x6e, 0x7a, 0x65, 0x72, 0x6f];
        proof { assert(m_jumpnonzero@ =~= mn_jumpnonzero()); }
        let m_jumpnotequal: [u8; 12] = [0x6au8, 0x75, 0x6d, 0x70, 0x6e, 0x6f, 0x74, 0x65, 0x71, 0x75, 0x61, 0x6c];
        proof { assert(m_jumpnotequal@ =~= mn_jumpnotequal()); }
        let m_jumpzero: [u8; 8] = [0x6au8, 0x75, 0x6d, 0x70, 0x7a, 0x65, 0x72, 0x6f];
        proof { assert(m_jumpzero@ =~= mn_jumpzero()); }
        let m_label: [u8; 5] = [0x6cu8, 0x61, 0x62, 0x65, 0x6c];
        proof { assert(m_label@ =~= mn_label()); }
        let m_load16: [u8; 6] = [0x6cu8, 0x6f, 0x61, 0x64, 0x31, 0x36];
        proof { assert(m_load16@ =~= mn_load16()); }
        let m_load32: [u8; 6] = [0x6cu8, 0x6f, 0x61, 0x64, 0x33, 0x32];
        proof { assert(m_load32@ =~= mn_load32()); }
        let m_load8: [u8; 5] = [0x6cu8, 0x6f, 0x61, 0x64, 0x38];
        proof { assert(m_load8@ =~= mn_load8()); }
        let m_mul: [u8; 3] = [0x6du8, 0x75, 0x6c];
        proof { assert(m_mul@ =~= mn_mul()); }
        let m_nop: [u8; 3] = [0x6eu8, 0x6f, 0x70];
        proof { assert(m_nop@ =~= mn_nop()); }
        let m_pop: [u8; 3] = [0x70u8, 0x6f, 0x70];
        proof { assert(m_pop@ =~= mn_pop()); }
        let m_popregister: [u8; 11] = [0x70u8, 0x6f, 0x70, 0x72, 0x65, 0x67, 0x69, 0x73, 0x74, 0x65, 0x72];
        proof { assert(m_popregister@ =~= mn_popregister()); }
        let m_push: [u8; 4] = [0x70u8, 0x75, 0x73, 0x68];
        proof { assert(m_push@ =~= mn_push()); }
        let m_pushregister: [u8; 12] = [0x70u8, 0x75, 0x73, 0x68, 0x72, 0x65, 0x67, 0x69, 0x73, 0x74, 0x65, 0x72];
        proof { assert(m_pushregister@ =~= mn_pushregister()); }
        let m_readstackpointer: [u8; 16] = [0x72u8, 0x65, 0x61, 0x64, 0x73, 0x74, 0x61, 0x63, 0x6b, 0x70, 0x6f, 0x69, 0x6e, 0x74, 0x65, 0x72];
        proof { assert(m_readstackpointer@ =~= mn_readstackpointer()); }
        let m_return: [u8; 6] = [0x72u8, 0x65, 0x74, 0x75, 0x72, 0x6e];
        proof { assert(m_return@ =~= mn_return()); }
        let m_set: [u8; 3] = [0x73u8, 0x65, 0x74];
        proof { assert(m_set@ =~= mn_set()); }
        let m_setregister: [u8; 11] = [0x73u8, 0x65, 0x74, 0x72, 0x65, 0x67, 0x69, 0x73, 0x74, 0x65, 0x72];
        proof { assert(m_setregister@ =~= mn_setregister()); }
        let m_store16: [u8; 7] = [0x73u8, 0x74, 0x6f, 0x72, 0x65, 0x31, 0x36];
        proof { assert(m_store16@ =~= mn_store16()); }
        let m_store32: [u8; 7] = [0x73u8, 0x74, 0x6f, 0x72, 0x65, 0x33, 0x32];
        proof { assert(m_store32@ =~= mn_store32()); }
        let m_store8: [u8; 6] = [0x73u8, 0x74, 0x6f, 0x72, 0x65, 0x38];
        proof { assert(m_store8@ =~= mn_store8()); }
        let m_sub: [u8; 3] = [0x73u8, 0x75, 0x62];
        proof { assert(m_sub@ =~= mn_sub()); }
        let m_swap: [u8; 4] = [0x73u8, 0x77, 0x61, 0x70];
        proof { assert(m_swap@ =~= mn_swap()); }
        let m_syscall: [u8; 7] = [0x73u8, 0x79, 0x73, 0x63, 0x61, 0x6c, 0x6c];
        proof { assert(m_syscall@ =~= mn_syscall()); }
        let m_write16: [u8; 7] = [0x77u8, 0x72, 0x69, 0x74, 0x65, 0x31, 0x36];
        proof { assert(m_write16@ =~= mn_write16()); }
        let m_write32: [u8; 7] = [0x77u8, 0x72, 0x69, 0x74, 0x65, 0x33, 0x32];
        proof { assert(m_write32@ =~= mn_write32()); }
        let m_write8: [u8; 6] = [0x77u8, 0x72, 0x69, 0x74, 0x65, 0x38];
        proof { assert(m_write8@ =~= mn_write8()); }
        let m_writestackpointer: [u8; 17] = [0x77u8, 0x72, 0x69, 0x74, 0x65, 0x73, 0x74, 0x61, 0x63, 0x6b, 0x70, 0x6f, 0x69, 0x6e, 0x74, 0x65, 0x72];
        proof { assert(m_writestackpointer@ =~= mn_writestackpointer()); }
        if eq_lower(first, &m_hash) || eq_lower(first, &m_slashes) {
            Ok(ExecItem::Blank)
        } else if eq_lower(first, &m_label) && toks.len() == 2 {
            Ok(ExecItem::DeclareLabel(slice_to_vec(toks[1].as_slice())))
        } else if eq_lower(first, &m_nop) && toks.len() == 1 {
            Ok(ExecItem::Emit(Instruction::Nop))
        } else if eq_lower(first, &m_halt) && toks.len() == 1 {
            Ok(ExecItem::Emit(Instruction::Halt))
        } else if eq_lower(first, &m_load8) && toks.len() == 2 {
            match parse_u32_bytes(toks[1].as_slice()) {
                Some(p) => Ok(ExecItem::Emit(Instruction::Load8(p))),
                None => Err(AsmError::InvalidNumber(slice_to_vec(toks[1].as_slice()))),
            }
        } else if eq_lower(first, &m_store8) && toks.len() == 2 {
            match parse_u32_bytes(toks[1].as_slice()) {
                Some(p) => Ok(ExecItem::Emit(Instruction::Store8(p))),
                None => Err(AsmError::InvalidNumber(slice_to_vec(toks[1].as_slice()))),
            }
        } else if eq_lower(first, &m_load16) && toks.len() == 2 {
            match parse_u32_bytes(toks[1].as_slice()) {
                Some(p) => Ok(ExecItem::Emit(Instruction::Load16(p))),
                None => Err(AsmError::InvalidNumber(slice_to_vec(toks[1].as_slice()))),
            }
        } else if eq_lower(first, &m_store16) && toks.len() == 2 {
            match parse_u32_bytes(toks[1].as_slice()) {
                Some(p) => Ok(ExecItem::Emit(Instruction::Store16(p))),
                None => Err(AsmError::InvalidNumber(slice_to_vec(toks[1].as_slice()))),
            }
        } else if eq_lower(first, &m_load32) && toks.len() == 2 {
            match parse_u32_bytes(toks[1].as_slice()) {
                Some(p) => Ok(ExecItem::Emit(Instruction::Load32(p))),
                None => Err(AsmError::InvalidNumber(slice_to_vec(toks[1].as_slice()))),
            }
        } else if eq_lower(first, &m_store32) && toks.len() == 2 {
            match parse_u32_bytes(toks[1].as_slice()) {
                Some(p) => Ok(ExecItem::Emit(Instruction::Store32(p))),
                None => Err(AsmError::InvalidNumber(slice_to_vec(toks[1].as_slice()))),
            }
        } else if eq_lower(first, &m_set) && toks.len() == 2 {
            match parse_u32_bytes(toks[1].as_slice()) {
                Some(p) => Ok(ExecItem::Emit(Instruction::SetMain(p))),
                None => Err(AsmError::InvalidNumber(slice_to_vec(toks[1].as_slice()))),
            }
        } else if eq_lower(first, &m_deref8) && toks.len() == 2 {
            match parse_u8_bytes(toks[1].as_slice()) {
                Some(x) => Ok(ExecItem::Emit(Instruction::Deref8(x))),
                None => Err(AsmError::InvalidNumber(slice_to_vec(toks[1].as_slice()))),
            }
        } else if eq_lower(first, &m_deref16) && toks.len() == 2 {
            match parse_u8_bytes(toks[1].as_slice()) {
                Some(x) => Ok(ExecItem::Emit(Instruction::Deref16(x))),
                None => Err(AsmError::InvalidNumber(slice_to_vec(toks[1].as_slice()))),
            }
        } else if eq_lower(first, &m_deref32) && toks.len() == 2 {
            match parse_u8_bytes(toks[1].as_slice()) {
                Some(x) => Ok(ExecItem::Emit(Instruction::Deref32(x))),
                None => Err(AsmError::InvalidNumber(slice_to_vec(toks[1].as_slice()))),
            }
        } else if eq_lower(first, &m_syscall) && toks.len() == 2 {
            match parse_u8_bytes(toks[1].as_slice()) {
                Some(x) => Ok(ExecItem::Emit(Instruction::Syscall(x))),
                None => Err(AsmError::InvalidNumber(slice_to_vec(toks[1].as_slice()))),
            }
        } else if eq_lower(first, &m_copycodememory) && toks.len() == 2 {
            Ok(ExecItem::EmitCopy(slice_to_vec(toks[1].as_slice())))
        } else if eq_lower(first, &m_datastring) {
            proof {
                lemma_first_token_len(lt@);
                assert(stoks[0].len() == lower_all(stoks[0]).len());
            }
            let rest = slice_subrange(lt, 10, lt.len());
            proof {
                assert(rest@ =~= lt@.skip(10));
            }
            let payload = trim_slice(rest);
            let mut i: usize = 0;
            while i < payload.len()
                invariant
                    i <= payload@.len(),
                    forall|j: int| 0 <= j < i ==> payload@[j] != 0,
                decreases payload@.len() - i,
            {
                if payload[i] == 0 {
                    proof {
                        assert(payload@.contains(0)) by {
                            assert(payload@[i as int] == 0);
                        }
                    }
                    return Err(AsmError::InteriorNul);
                }
                i = i + 1;
            }
            proof {
                if payload@.contains(0) {
                    let j = choose|j: int| 0 <= j < payload@.len() && payload@[j] == 0;
                    assert(payload@[j] != 0);
                }
            }
            if payload.len() > u32::MAX as usize - 6 {
                return Err(AsmError::TooLarge);
            }
            let mut data = slice_to_vec(payload);
            data.push(0);
            let len_field = data.len() as u32;
            Ok(ExecItem::Emit(Instruction::Data(len_field, data)))
        } else if eq_lower(first, &m_swap) && toks.len() == 2 {
            match parse_u8_bytes(toks[1].as_slice()) {
                Some(x) => Ok(ExecItem::Emit(Instruction::Swap(x))),
                None => Err(AsmError::InvalidNumber(slice_to_vec(toks[1].as_slice()))),
            }
        } else if eq_lower(first, &m_write8) && toks.len() == 2 {
            match parse_u8_bytes(toks[1].as_slice()) {
                Some(x) => Ok(ExecItem::Emit(Instruction::Write8(x))),
                None => Err(AsmError::InvalidNumber(slice_to_vec(toks[1].as_slice()))),
            }
        } else if eq_lower(first, &m_write16) && toks.len() == 2 {
            match parse_u8_bytes(toks[1].as_slice()) {
                Some(x) => Ok(ExecItem::Emit(Instruction::Write16(x))),
                None => Err(AsmError::InvalidNumber(slice_to_vec(toks[1].as_slice()))),
            }
        } else if eq_lower(first, &m_write32) && toks.len() == 2 {
            match parse_u8_bytes(toks[1].as_slice()) {
                Some(x) => Ok(ExecItem::Emit(Instruction::Write32(x))),
                None => Err(AsmError::InvalidNumber(slice_to_vec(toks[1].as_slice()))),
            }
        } else if eq_lower(first, &m_readstackpointer) && toks.len() == 1 {
            Ok(ExecItem::Emit(Instruction::ReadStackPointer))
        } else if eq_lower(first, &m_writestackpointer) && toks.len() == 1 {
            Ok(ExecItem::Emit(Instruction::WriteStackPointer))
        } else if eq_lower(first, &m_jump) && toks.len() == 2 {
            Ok(ExecItem::EmitJump(
                Instruction::Jump(DUMMY_ADDRESS),
                slice_to_vec(toks[1].as_slice()),
            ))
        } else if eq_lower(first, &m_call) && toks.len() == 2 {
            Ok(ExecItem::EmitJump(
                Instruction::Call(DUMMY_ADDRESS),
                slice_to_vec(toks[1].as_slice()),
            ))
        } else if eq_lower(first, &m_return) && toks.len() == 1 {
            Ok(ExecItem::Emit(Instruction::Return))
        } else if eq_lower(first, &m_increment) && toks.len() == 1 {
            Ok(ExecItem::Emit(Instruction::Increment))
        } else if eq_lower(first, &m_decrement) && toks.len() == 1 {
            Ok(ExecItem::Emit(Instruction::Decrement))
        } else if eq_lower(first, &m_add) && toks.len() == 2 {
            match parse_u8_bytes(toks[1].as_slice()) {
                Some(x) => Ok(ExecItem::Emit(Instruction::Add(x))),
                None => Err(AsmError::InvalidNumber(slice_to_vec(toks[1].as_slice()))),
            }
        } else if eq_lower(first, &m_sub) && toks.len() == 2 {
            match parse_u8_bytes(toks[1].as_slice()) {
                Some(x) => Ok(ExecItem::Emit(Instruction::Sub(x))),
                None => Err(AsmError::InvalidNumber(slice_to_vec(toks[1].as_slice()))),
            }
        } else if eq_lower(first, &m_compare) && toks.len() == 2 {
            match parse_u8_bytes(toks[1].as_slice()) {
                Some(x) => Ok(ExecItem::Emit(Instruction::Compare(x))),
                None => Err(AsmError::InvalidNumber(slice_to_vec(toks[1].as_slice()))),
            }
        } else if eq_lower(first, &m_jumpequal) && toks.len() == 2 {
            Ok(ExecItem::EmitJump(
                Instruction::JumpEqual(DUMMY_ADDRESS),
                slice_to_vec(toks[1].as_slice()),
            ))
        } else if eq_lower(first, &m_jumpnotequal) && toks.len() == 2 {
            Ok(ExecItem::EmitJump(
                Instruction::JumpNotEqual(DUMMY_ADDRESS),
                slice_to_vec(toks[1].as_slice()),
            ))
        } else if eq_lower(first, &m_jumpgreater) && toks.len() == 2 {
            Ok(ExecItem::EmitJump(
                Instruction::JumpGreater(DUMMY_ADDRESS),
                slice_to_vec(toks[1].as_slice()),
            ))
        } else if eq_lower(first, &m_jumpless) && toks.len() == 2 {
            Ok(ExecItem::EmitJump(
                Instruction::JumpLess(DUMMY_ADDRESS),
                slice_to_vec(toks[1].as_slice()),
            ))
        } else if eq_lower(first, &m_jumpgreaterequal) && toks.len() == 2 {
            Ok(ExecItem::EmitJump(
                Instruction::JumpGreaterEqual(DUMMY_ADDRESS),
                slice_to_vec(toks[1].as_slice()),
            ))
        } else if eq_lower(first, &m_jumplessequal) && toks.len() == 2 {
            Ok(ExecItem::EmitJump(
                Instruction::JumpLessEqual(DUMMY_ADDRESS),
                slice_to_vec(toks[1].as_slice()),
            ))
        } else if eq_lower(first, &m_jumpzero) && toks.len() == 2 {
            Ok(ExecItem::EmitJump(
                Instruction::JumpZero(DUMMY_ADDRESS),
                slice_to_vec(toks[1].as_slice()),
            ))
        } else if eq_lower(first, &m_jumpnonzero) && toks.len() == 2 {
            Ok(ExecItem::EmitJump(
                Instruction::JumpNonzero(DUMMY_ADDRESS),
                slice_to_vec(toks[1].as_slice()),
            ))
        } else if eq_lower(first, &m_push) && toks.len() == 1 {
            Ok(ExecItem::Emit(Instruction::Push))
        } else if eq_lower(first, &m_pop) && toks.len() == 1 {
            Ok(ExecItem::Emit(Instruction::Pop))
        } else if eq_lower(first, &m_pushregister) && toks.len() == 2 {
            match parse_u8_bytes(toks[1].as_slice()) {
                Some(x) => Ok(ExecItem::Emit(Instruction::PushRegister(x))),
                None => Err(AsmError::InvalidNumber(slice_to_vec(toks[1].as_slice()))),
            }
        } else if eq_lower(first, &m_popregister) && toks.len() == 2 {
            match parse_u8_bytes(toks[1].as_slice()) {
                Some(x) => Ok(ExecItem::Emit(Instruction::PopRegister(x))),
                None => Err(AsmError::InvalidNumber(slice_to_vec(toks[1].as_slice()))),
            }
        } else if eq_lower(first, &m_mul) && toks.len() == 2 {
            match parse_u8_bytes(toks[1].as_slice()) {
                Some(x) => Ok(ExecItem::Emit(Instruction::Mul(x))),
                None => Err(AsmError::InvalidNumber(slice_to_vec(toks[1].as_slice()))),
            }
        } else if eq_lower(first, &m_div) && toks.len() == 2 {
            match parse_u8_bytes(toks[1].as_slice()) {
                Some(x) => Ok(ExecItem::Emit(Instruction::Div(x))),
                None => Err(AsmError::InvalidNumber(slice_to_vec(toks[1].as_slice()))),
            }
        } else if eq_lower(first, &m_incrementregister) && toks.len() == 2 {
            match parse_u8_bytes(toks[1].as_slice()) {
                Some(x) => Ok(ExecItem::Emit(Instruction::IncrementRegister(x))),
                None => Err(AsmError::InvalidNumber(slice_to_vec(toks[1].as_slice()))),
            }
        } else if eq_lower(first, &m_decrementregister) && toks.len() == 2 {
            match parse_u8_bytes(toks[1].as_slice()) {
                Some(x) => Ok(ExecItem::Emit(Instruction::DecrementRegister(x))),
                None => Err(AsmError::InvalidNumber(slice_to_vec(toks[1].as_slice()))),
            }
        } else if eq_lower(first, &m_setregister) && toks.len() == 3 {
            match parse_u8_bytes(toks[1].as_slice()) {
                None => Err(AsmError::InvalidNumber(slice_to_vec(toks[1].as_slice()))),
                Some(x) => match parse_u32_bytes(toks[2].as_slice()) {
                    None => Err(AsmError::InvalidNumber(slice_to_vec(toks[2].as_slice()))),
                    Some(val) => Ok(ExecItem::Emit(Instruction::SetRegister(x, val))),
                },
            }
        } else {
            let mut cmd: Vec<u8> = Vec::new();
            let mut ci: usize = 0;
            while ci < first.len()
                invariant
                    ci <= first@.len(),
                    cmd@ == lower_all(first@).take(ci as int),
                decreases first@.len() - ci,
            {
                cmd.push(lower_b(first[ci]));
                proof {
                    assert(cmd@ =~= lower_all(first@).take(ci as int + 1));
                }
                ci = ci + 1;
            }
            proof {
                assert(lower_all(first@).take(first@.len() as int) =~= lower_all(first@));
            }
            Err(AsmError::UnknownCommand(cmd))
        }
    }
}


/// The state of the assembler after its first pass over a prefix of the
/// source: the instructions emitted so far, the label table mapping each
/// declared label to the instruction count at its declaration, and the
/// queued placeholder references awaiting the second pass.
#[verifier::ext_equal]
pub struct AsmState {
    pub instrs: Seq<InstrView>,
    pub labels: Map<Seq<u8>, int>,
    pub jumps: Seq<(int, Seq<u8>)>,
    pub copies: Seq<(int, Seq<u8>)>,
}

/// The effect of one line directive on the first-pass state. An emitted
/// instruction that would push the program past the address space is
/// rejected.
pub open spec fn apply_item(st: AsmState, item: LineItem) -> Result<AsmState, AsmErrorView> {
    match item {
        LineItem::Blank => Ok(st),
        LineItem::DeclareLabel(name) => Ok(
            AsmState { labels: st.labels.insert(name, st.instrs.len() as int), ..st },
        ),
        LineItem::Emit(i) => if sizes_total(st.instrs) + spec_size(i) <= u32::MAX {
            Ok(AsmState { instrs: st.instrs.push(i), ..st })
        } else {
            Err(AsmErrorView::TooLarge)
        },
        LineItem::EmitJump(d, label) => if sizes_total(st.instrs) + spec_size(d) <= u32::MAX {
            Ok(
                AsmState {
                    instrs: st.instrs.push(d),
                    jumps: st.jumps.push((st.instrs.len() as int, label)),
                    ..st
                },
            )
        } else {
            Err(AsmErrorView::TooLarge)
        },
        LineItem::EmitCopy(label) => if sizes_total(st.instrs) + 9 <= u32::MAX {
            Ok(
                AsmState {
                    instrs: st.instrs.push(InstrView::CopyCodeMemory(DUMMY_ADDRESS, 0)),
                    copies: st.copies.push((st.instrs.len() as int, label)),
                    ..st
                },
            )
        } else {
            Err(AsmErrorView::TooLarge)
        },
    }
}

/// The empty first-pass state.
pub open spec fn empty_state() -> AsmState {
    AsmState {
        instrs: Seq::empty(),
        labels: Map::empty(),
        jumps: Seq::empty(),
        copies: Seq::empty(),
    }
}

/// The first pass over the source lines, stopping at the first error.
pub open spec fn spec_pass1(lines: Seq<Seq<u8>>) -> Result<AsmState, AsmErrorView>
    decreases lines.len(),
{
    if lines.len() == 0 {
        Ok(empty_state())
    } else {
        match spec_pass1(lines.drop_last()) {
            Err(e) => Err(e),
            Ok(st) => match spec_parse_line(lines.last()) {
                Err(e) => Err(e),
                Ok(item) => apply_item(st, item),
            },
        }
    }
}

/// A first-pass error on a prefix is the result on the whole source.
pub proof fn lemma_pass1_extends_err(lines: Seq<Seq<u8>>, k: int)
    requires
        0 <= k <= lines.len(),
        spec_pass1(lines.take(k)) is Err,
    ensures
        spec_pass1(lines) == spec_pass1(lines.take(k)),
    decreases lines.len() - k,
{
    if k == lines.len() {
        assert(lines.take(k) =~= lines);
    } else {
        assert(lines.take(k + 1).drop_last() =~= lines.take(k));
        lemma_pass1_extends_err(lines, k + 1);
    }
}

/// The label table that an association list denotes: a later entry for the
/// same label overwrites an earlier one.
pub open spec fn labels_map(l: Seq<(Seq<u8>, int)>) -> Map<Seq<u8>, int>
    decreases l.len(),
{
    if l.len() == 0 {
        Map::empty()
    } else {
        labels_map(l.drop_last()).insert(l.last().0, l.last().1)
    }
}

/// The model of the executable label list.
pub open spec fn labels_view(l: Seq<(Vec<u8>, usize)>) -> Seq<(Seq<u8>, int)> {
    l.map_values(|p: (Vec<u8>, usize)| (p.0@, p.1 as int))
}

/// The model of an executable placeholder queue.
pub open spec fn pairs_view(l: Seq<(usize, Vec<u8>)>) -> Seq<(int, Seq<u8>)> {
    l.map_values(|p: (usize, Vec<u8>)| (p.0 as int, p.1@))
}

/// The second pass over the queued jump placeholders: look each label up,
/// resolve it to a byte address, and patch the placeholder; unresolved
/// labels and patch failures stop the pass.
pub open spec fn spec_patch_jumps(
    instrs: Seq<InstrView>,
    labels: Map<Seq<u8>, int>,
    jumps: Seq<(int, Seq<u8>)>,
) -> Result<Seq<InstrView>, AsmErrorView>
    decreases jumps.len(),
{
    if jumps.len() == 0 {
        Ok(instrs)
    } else {
        match spec_patch_jumps(instrs, labels, jumps.drop_last()) {
            Err(e) => Err(e),
            Ok(cur) => {
                let (idx, label) = jumps.last();
                if !labels.contains_key(label) {
                    Err(AsmErrorView::UnresolvedLabel(label))
                } else {
                    let target = labels[label];
                    if !(0 <= target < cur.len()) {
                        Err(AsmErrorView::Build(BuildError::InvalidJumpIndex))
                    } else if !(0 <= idx < cur.len()) {
                        Err(AsmErrorView::Build(BuildError::InvalidInstructionIndex))
                    } else if !is_dummy_jump(cur[idx]) {
                        Err(AsmErrorView::Build(BuildError::NotDummyJump))
                    } else {
                        Ok(
                            cur.update(
                                idx,
                                with_target(cur[idx], spec_address(cur, target) as VmPtr),
                            ),
                        )
                    }
                }
            },
        }
    }
}

/// A jump-patch error on a prefix is the result on the whole queue.
pub proof fn lemma_patch_jumps_extends_err(
    instrs: Seq<InstrView>,
    labels: Map<Seq<u8>, int>,
    jumps: Seq<(int, Seq<u8>)>,
    k: int,
)
    requires
        0 <= k <= jumps.len(),
        spec_patch_jumps(instrs, labels, jumps.take(k)) is Err,
    ensures
        spec_patch_jumps(instrs, labels, jumps) == spec_patch_jumps(instrs, labels, jumps.take(k)),
    decreases jumps.len() - k,
{
    if k == jumps.len() {
        assert(jumps.take(k) =~= jumps);
    } else {
        assert(jumps.take(k + 1).drop_last() =~= jumps.take(k));
        lemma_patch_jumps_extends_err(instrs, labels, jumps, k + 1);
    }
}

/// The second pass over the queued copy placeholders: look each label up,
/// check that it names a data segment, and patch the placeholder with the
/// segment's payload address and length.
pub open spec fn spec_patch_copies(
    instrs: Seq<InstrView>,
    labels: Map<Seq<u8>, int>,
    copies: Seq<(int, Seq<u8>)>,
) -> Result<Seq<InstrView>, AsmErrorView>
    decreases copies.len(),
{
    if copies.len() == 0 {
        Ok(instrs)
    } else {
        match spec_patch_copies(instrs, labels, copies.drop_last()) {
            Err(e) => Err(e),
            Ok(cur) => {
                let (idx, label) = copies.last();
                if !labels.contains_key(label) {
                    Err(AsmErrorView::UnresolvedLabel(label))
                } else {
                    let target = labels[label];
                    if !(0 <= target < cur.len()) {
                        Err(AsmErrorView::Build(BuildError::InvalidDataIndex))
                    } else if !(cur[target] matches InstrView::Data(_, _)) {
                        Err(AsmErrorView::Build(BuildError::NotData))
                    } else if !(0 <= idx < cur.len()) {
                        Err(AsmErrorView::Build(BuildError::InvalidInstructionIndex))
                    } else if !(cur[idx] matches InstrView::CopyCodeMemory(_, _)) {
                        Err(AsmErrorView::Build(BuildError::NotDummyCopyData))
                    } else {
                        let dlen = cur[target]->Data_0;
                        Ok(
                            cur.update(
                                idx,
                                InstrView::CopyCodeMemory(
                                    (spec_address(cur, target) + 1 + WORD_SIZE) as VmPtr,
                                    dlen,
                                ),
                            ),
                        )
                    }
                }
            },
        }
    }
}

/// A copy-patch error on a prefix is the result on the whole queue.
pub proof fn lemma_patch_copies_extends_err(
    instrs: Seq<InstrView>,
    labels: Map<Seq<u8>, int>,
    copies: Seq<(int, Seq<u8>)>,
    k: int,
)
    requires
        0 <= k <= copies.len(),
        spec_patch_copies(instrs, labels, copies.take(k)) is Err,
    ensures
        spec_patch_copies(instrs, labels, copies) == spec_patch_copies(
            instrs,
            labels,
            copies.take(k),
        ),
    decreases copies.len() - k,
{
    if k == copies.len() {
        assert(copies.take(k) =~= copies);
    } else {
        assert(copies.take(k + 1).drop_last() =~= copies.take(k));
        lemma_patch_copies_extends_err(instrs, labels, copies, k + 1);
    }
}

/// What assembling a source means: split it into lines, run the first pass,
/// then patch the queued jump and copy placeholders.
pub open spec fn spec_assemble(src: Seq<u8>) -> Result<Seq<InstrView>, AsmErrorView> {
    match spec_pass1(split_lines(src)) {
        Err(e) => Err(e),
        Ok(st) => match spec_patch_jumps(st.instrs, st.labels, st.jumps) {
            Err(e) => Err(e),
            Ok(instrs2) => spec_patch_copies(instrs2, st.labels, st.copies),
        },
    }
}

/// Look a label up in the association list; the last entry for a label
/// wins, as in the label table it denotes.
fn lookup_label(labels: &Vec<(Vec<u8>, usize)>, name: &[u8]) -> (r: Option<usize>)
    ensures
        ({
            let m = labels_map(labels_view(labels@));
            match r {
                Some(i) => m.contains_key(name@) && m[name@] == i as int,
                None => !m.contains_key(name@),
            }
        }),
{
    let ghost lv = labels_view(labels@);
    let mut i: usize = labels.len();
    proof {
        assert(lv.take(labels@.len() as int) =~= lv);
    }
    while i > 0
        invariant
            i <= labels@.len(),
            lv == labels_view(labels@),
            labels_map(lv).contains_key(name@) == labels_map(lv.take(i as int)).contains_key(
                name@,
            ),
            labels_map(lv).contains_key(name@) ==> labels_map(lv)[name@] == labels_map(
                lv.take(i as int),
            )[name@],
        decreases i,
    {
        proof {
            assert(lv.take(i as int).drop_last() =~= lv.take(i as int - 1));
            assert(lv.take(i as int).last() == lv[i as int - 1]);
            assert(lv[i as int - 1] == (labels@[i as int - 1].0@, labels@[i as int - 1].1 as int));
        }
        if eq_bytes(labels[i - 1].0.as_slice(), name) {
            return Some(labels[i - 1].1);
        }
        i = i - 1;
    }
    proof {
        assert(lv.take(0) =~= Seq::<(Seq<u8>, int)>::empty());
    }
    None
}

/// Whether two byte slices hold the same bytes.
fn eq_bytes(a: &[u8], b: &[u8]) -> (r: bool)
    ensures
        r == (a@ == b@),
{
    if a.len() != b.len() {
        return false;
    }
    let mut j: usize = 0;
    while j < a.len()
        invariant
            a@.len() == b@.len(),
            j <= a@.len(),
            forall|q: int| 0 <= q < j ==> a@[q] == b@[q],
        decreases a@.len() - j,
    {
        if a[j] != b[j] {
            return false;
        }
        j = j + 1;
    }
    proof {
        assert(a@ =~= b@);
    }
    true
}

/// Assemble line-oriented mnemonic source into a program: tokenize and emit
/// in a first pass, recording labels and queuing placeholder references,
/// then resolve every reference and patch the placeholders in a second
/// pass. Assembly stops at the first error.
#[verifier::rlimit(100)]
#[verifier::spinoff_prover]
#[verifier::loop_isolation(false)]
pub fn assemble(source: &[u8]) -> (r: Result<Program, AsmError>)
    ensures
        match spec_assemble(source@) {
            Ok(instrs) => (r matches Ok(p) && p@ == instrs && p.wf()),
            Err(e) => (r matches Err(ae) && ae@ == e),
        },
{
    let lines = split_lines_exec(source);
    let ghost slines = split_lines(source@);
    let mut program = Program::new();
    let mut total: u32 = 0;
    let mut count: usize = 0;
    let mut labels: Vec<(Vec<u8>, usize)> = Vec::new();
    let mut jumps: Vec<(usize, Vec<u8>)> = Vec::new();
    let mut copies: Vec<(usize, Vec<u8>)> = Vec::new();
    proof {
        assert(slines.take(0) =~= Seq::<Seq<u8>>::empty());
        assert(labels_view(labels@) =~= Seq::<(Seq<u8>, int)>::empty());
        assert(pairs_view(jumps@) =~= Seq::<(int, Seq<u8>)>::empty());
        assert(pairs_view(copies@) =~= Seq::<(int, Seq<u8>)>::empty());
        assert(spec_pass1(slines.take(0)) == Ok::<AsmState, AsmErrorView>(empty_state()));
        assert(empty_state() =~= (AsmState {
            instrs: program@,
            labels: labels_map(labels_view(labels@)),
            jumps: pairs_view(jumps@),
            copies: pairs_view(copies@),
        }));
    }
    let mut li: usize = 0;
    while li < lines.len()
        invariant
            li <= lines@.len(),
            slines == lines@.map_values(|l: Vec<u8>| l@),
            program.wf(),
            total == sizes_total(program@),
            count == program@.len(),
            spec_pass1(slines.take(li as int)) == Ok::<AsmState, AsmErrorView>(
                AsmState {
                    instrs: program@,
                    labels: labels_map(labels_view(labels@)),
                    jumps: pairs_view(jumps@),
                    copies: pairs_view(copies@),
                },
            ),
        decreases lines@.len() - li,
    {
        let ghost st = AsmState {
            instrs: program@,
            labels: labels_map(labels_view(labels@)),
            jumps: pairs_view(jumps@),
            copies: pairs_view(copies@),
        };
        proof {
            assert(slines.take(li as int + 1).drop_last() =~= slines.take(li as int));
            assert(slines.take(li as int + 1).last() == slines[li as int]);
            assert(slines[li as int] == lines@[li as int]@);
        }
        let item = match parse_line(lines[li].as_slice()) {
            Ok(item) => item,
            Err(e) => {
                proof {
                    lemma_pass1_extends_err(slines, li as int + 1);
                }
                return Err(e);
            },
        };
        match item {
            ExecItem::Blank => {},
            ExecItem::DeclareLabel(name) => {
                let ghost prev = labels_view(labels@);
                labels.push((name, count));
                proof {
                    assert(labels_view(labels@) =~= prev.push((labels@.last().0@, count as int)));
                    assert(labels_view(labels@).drop_last() =~= prev);
                }
            },
            ExecItem::Emit(instr) => {
                let size = instr.size();
                if total as u64 + size as u64 > u32::MAX as u64 {
                    proof {
                        lemma_pass1_extends_err(slines, li as int + 1);
                    }
                    return Err(AsmError::TooLarge);
                }
                proof {
                    lemma_sizes_total_ge_len(program@);
                    lemma_size_pos(instr@);
                }
                program.add_instruction(instr);
                proof {
                    lemma_sizes_total_push(st.instrs, program@.last());
                }
                total = total + size as u32;
                count = count + 1;
            },
            ExecItem::EmitJump(instr, label) => {
                let size = instr.size();
                if total as u64 + size as u64 > u32::MAX as u64 {
                    proof {
                        lemma_pass1_extends_err(slines, li as int + 1);
                    }
                    return Err(AsmError::TooLarge);
                }
                proof {
                    lemma_sizes_total_ge_len(program@);
                    lemma_size_pos(instr@);
                }
                let ghost prev = pairs_view(jumps@);
                program.add_instruction(instr);
                proof {
                    lemma_sizes_total_push(st.instrs, program@.last());
                }
                jumps.push((count, label));
                proof {
                    assert(pairs_view(jumps@) =~= prev.push((count as int, jumps@.last().1@)));
                }
                total = total + size as u32;
                count = count + 1;
            },
            ExecItem::EmitCopy(label) => {
                if total as u64 + 9u64 > u32::MAX as u64 {
                    proof {
                        lemma_pass1_extends_err(slines, li as int + 1);
                    }
                    return Err(AsmError::TooLarge);
                }
                let ghost prev = pairs_view(copies@);
                proof {
                    lemma_sizes_total_ge_len(program@);
                }
                program.add_instruction(Instruction::CopyCodeMemory(DUMMY_ADDRESS, 0));
                proof {
                    lemma_sizes_total_push(st.instrs, program@.last());
                }
                copies.push((count, label));
                proof {
                    assert(pairs_view(copies@) =~= prev.push((count as int, copies@.last().1@)));
                }
                total = total + 9;
                count = count + 1;
            },
        }
        proof {
            assert(spec_pass1(slines.take(li as int + 1)) == Ok::<AsmState, AsmErrorView>(
                AsmState {
                    instrs: program@,
                    labels: labels_map(labels_view(labels@)),
                    jumps: pairs_view(jumps@),
                    copies: pairs_view(copies@),
                },
            )) by {
                assert((AsmState {
                    instrs: program@,
                    labels: labels_map(labels_view(labels@)),
                    jumps: pairs_view(jumps@),
                    copies: pairs_view(copies@),
                }) =~= (match spec_pass1(slines.take(li as int + 1)) {
                    Ok(st2) => st2,
                    Err(_) => empty_state(),
                }));
            }
        }
        li = li + 1;
    }
    proof {
        assert(slines.take(slines.len() as int) =~= slines);
    }
    let ghost st = AsmState {
        instrs: program@,
        labels: labels_map(labels_view(labels@)),
        jumps: pairs_view(jumps@),
        copies: pairs_view(copies@),
    };
    let ghost jv = pairs_view(jumps@);
    let mut k: usize = 0;
    while k < jumps.len()
        invariant
            k <= jumps@.len(),
            jv == pairs_view(jumps@),
            program.wf(),
            spec_patch_jumps(st.instrs, st.labels, jv.take(k as int)) == Ok::<
                Seq<InstrView>,
                AsmErrorView,
            >(program@),
        decreases jumps@.len() - k,
    {
        proof {
            assert(jv.take(k as int + 1).drop_last() =~= jv.take(k as int));
            assert(jv.take(k as int + 1).last() == jv[k as int]);
            assert(jv[k as int] == (jumps@[k as int].0 as int, jumps@[k as int].1@));
        }
        let idx = jumps[k].0;
        let target = match lookup_label(&labels, jumps[k].1.as_slice()) {
            Some(t) => t,
            None => {
                proof {
                    lemma_patch_jumps_extends_err(st.instrs, st.labels, jv, k as int + 1);
                }
                return Err(AsmError::UnresolvedLabel(slice_to_vec(jumps[k].1.as_slice())));
            },
        };
        match program.replace_dummy_address(idx, target) {
            Ok(()) => {},
            Err(e) => {
                proof {
                    lemma_patch_jumps_extends_err(st.instrs, st.labels, jv, k as int + 1);
                }
                return Err(AsmError::Build(e));
            },
        }
        k = k + 1;
    }
    proof {
        assert(jv.take(jv.len() as int) =~= jv);
    }
    let ghost instrs2 = program@;
    let ghost cv = pairs_view(copies@);
    let mut k2: usize = 0;
    while k2 < copies.len()
        invariant
            k2 <= copies@.len(),
            cv == pairs_view(copies@),
            program.wf(),
            spec_patch_copies(instrs2, st.labels, cv.take(k2 as int)) == Ok::<
                Seq<InstrView>,
                AsmErrorView,
            >(program@),
        decreases copies@.len() - k2,
    {
        proof {
            assert(cv.take(k2 as int + 1).drop_last() =~= cv.take(k2 as int));
            assert(cv.take(k2 as int + 1).last() == cv[k2 as int]);
            assert(cv[k2 as int] == (copies@[k2 as int].0 as int, copies@[k2 as int].1@));
        }
        let idx = copies[k2].0;
        let target = match lookup_label(&labels, copies[k2].1.as_slice()) {
            Some(t) => t,
            None => {
                proof {
                    lemma_patch_copies_extends_err(instrs2, st.labels, cv, k2 as int + 1);
                }
                return Err(AsmError::UnresolvedLabel(slice_to_vec(copies[k2].1.as_slice())));
            },
        };
        match program.replace_dummy_copy_data(idx, target) {
            Ok(()) => {},
            Err(e) => {
                proof {
                    lemma_patch_copies_extends_err(instrs2, st.labels, cv, k2 as int + 1);
                }
                return Err(AsmError::Build(e));
            },
        }
        k2 = k2 + 1;
    }
    proof {
        assert(cv.take(cv.len() as int) =~= cv);
    }
    Ok(program)
}

} // verus!
