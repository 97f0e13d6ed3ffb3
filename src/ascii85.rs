//! Ascii85 decoding of a `<~ ... ~>` delimited text.
use crate::bytes::append_range;
use vstd::prelude::*;

verus! {

/// What kind of input the decoder refused.
#[derive(Debug, Clone, Copy, PartialEq, Eq)]
pub enum DecodeErrorKind {
    /// A character outside `!`..`u` where a group character or the end
    /// marker is expected.
    InvalidCharacter,
    /// A group whose value does not fit in 32 bits.
    Overflow,
    /// Missing or malformed delimiters, or text after the end marker.
    Syntax,
}

/// The error of a failed decode.
#[derive(Debug, Clone, Copy, PartialEq, Eq)]
pub struct DecodeError {
    pub kind: DecodeErrorKind,
}

/// A character of the 85-symbol alphabet `!`..`u`.
pub open spec fn is_ascii85_value(c: char) -> bool {
    33 <= (c as u32) <= 117
}

/// Whitespace that may stand between and inside groups.
pub open spec fn is_ws(c: char) -> bool {
    c == ' ' || c == '\t' || c == '\n' || c == '\r'
}

/// The first position at or after `i` that holds no whitespace.
pub open spec fn skip_ws(s: Seq<char>, i: int) -> int
    decreases s.len() - i,
{
    if 0 <= i < s.len() && is_ws(s[i]) {
        skip_ws(s, i + 1)
    } else {
        i
    }
}

/// The digit value of the `k`-th character of a group, padded with `u` (84).
pub open spec fn padded_digit(g: Seq<char>, k: int) -> int {
    if k < g.len() {
        (g[k] as u32) - 33
    } else {
        84
    }
}

/// The base-85 value of a group padded to five characters.
pub open spec fn group_value(g: Seq<char>) -> int {
    padded_digit(g, 0) * 52200625 + padded_digit(g, 1) * 614125 + padded_digit(g, 2) * 7225
        + padded_digit(g, 3) * 85 + padded_digit(g, 4)
}

/// The four big-endian bytes of `v`.
pub open spec fn be_bytes(v: int) -> Seq<u8> {
    seq![
        ((v / 0x1000000) % 256) as u8,
        ((v / 0x10000) % 256) as u8,
        ((v / 0x100) % 256) as u8,
        (v % 256) as u8,
    ]
}

/// A group of `n` characters decodes to the first `n - 1` bytes of its
/// padded value.
pub open spec fn decode_group(g: Seq<char>) -> Result<Seq<u8>, DecodeErrorKind> {
    if exists|k: int| 0 <= k < g.len() && !is_ascii85_value(#[trigger] g[k]) {
        Err(DecodeErrorKind::InvalidCharacter)
    } else if group_value(g) > u32::MAX {
        Err(DecodeErrorKind::Overflow)
    } else {
        Ok(be_bytes(group_value(g)).take(g.len() - 1))
    }
}

/// A pending group that is closed: nothing for no characters.
#[verifier::opaque]
pub open spec fn flush(g: Seq<char>) -> Result<Seq<u8>, DecodeErrorKind> {
    if g.len() == 0 {
        Ok(Seq::empty())
    } else {
        decode_group(g)
    }
}

/// `head` followed by what `rest` decoded, or the first error.
pub open spec fn prepend(
    head: Result<Seq<u8>, DecodeErrorKind>,
    rest: Result<(Seq<u8>, int), DecodeErrorKind>,
) -> Result<(Seq<u8>, int), DecodeErrorKind> {
    match head {
        Err(k) => Err(k),
        Ok(a) => match rest {
            Ok((b, e)) => Ok((a + b, e)),
            Err(k) => Err(k),
        },
    }
}

/// Decodes the groups from position `i` on, with `g` the characters of the
/// group read so far: the bytes and the position of the first character
/// that is neither whitespace, a group character nor `z`. A group closes
/// after five characters or where something else follows; `z` stands for
/// four zero bytes.
#[verifier::opaque]
pub open spec fn parse_groups(s: Seq<char>, i: int, g: Seq<char>) -> Result<
    (Seq<u8>, int),
    DecodeErrorKind,
>
    decreases s.len() - i,
{
    if i < 0 || i >= s.len() {
        prepend(flush(g), Ok((Seq::empty(), i)))
    } else if is_ws(s[i]) {
        parse_groups(s, i + 1, g)
    } else if is_ascii85_value(s[i]) {
        if g.len() >= 4 {
            prepend(decode_group(g.push(s[i])), parse_groups(s, i + 1, Seq::empty()))
        } else {
            parse_groups(s, i + 1, g.push(s[i]))
        }
    } else if s[i] == 'z' {
        prepend(
            flush(g),
            prepend(Ok(seq![0u8, 0u8, 0u8, 0u8]), parse_groups(s, i + 1, Seq::empty())),
        )
    } else {
        prepend(flush(g), Ok((Seq::empty(), i)))
    }
}

/// The bytes that `s` decodes to: optional whitespace, `<~`, groups, `~>`,
/// optional whitespace, and nothing else.
pub open spec fn decoded(s: Seq<char>) -> Result<Seq<u8>, DecodeErrorKind> {
    let p = skip_ws(s, 0);
    if !(p + 1 < s.len() && s[p] == '<' && s[p + 1] == '~') {
        Err(DecodeErrorKind::Syntax)
    } else {
        match parse_groups(s, p + 2, Seq::empty()) {
            Err(k) => Err(k),
            Ok((out, e)) => if e + 1 < s.len() && s[e] == '~' && s[e + 1] == '>' && skip_ws(
                s,
                e + 2,
            ) == s.len() {
                Ok(out)
            } else if e < s.len() && s[e] != '~' {
                Err(DecodeErrorKind::InvalidCharacter)
            } else {
                Err(DecodeErrorKind::Syntax)
            },
        }
    }
}

/// Decodes one group of one to five characters.
pub fn decode_sequence(b: &[char]) -> (r: Result<Vec<u8>, DecodeError>)
    requires
        1 <= b@.len() <= 5,
    ensures
        match decode_group(b@) {
            Ok(v) => r is Ok && r->Ok_0@ == v,
            Err(k) => r is Err && r->Err_0.kind == k,
        },
{
    let mut value: u64 = 0;
    let mut k: usize = 0;
    while k < 5
        invariant
            1 <= b@.len() <= 5,
            k <= 5,
            forall|m: int| 0 <= m < k && m < b@.len() ==> is_ascii85_value(#[trigger] b@[m]),
            value as int == (if k == 0 {
                0
            } else if k == 1 {
                padded_digit(b@, 0)
            } else if k == 2 {
                padded_digit(b@, 0) * 85 + padded_digit(b@, 1)
            } else if k == 3 {
                (padded_digit(b@, 0) * 85 + padded_digit(b@, 1)) * 85 + padded_digit(b@, 2)
            } else if k == 4 {
                ((padded_digit(b@, 0) * 85 + padded_digit(b@, 1)) * 85 + padded_digit(b@, 2)) * 85
                    + padded_digit(b@, 3)
            } else {
                group_value(b@)
            }),
            forall|m: int| 0 <= m < k ==> 0 <= #[trigger] padded_digit(b@, m) < 85,
            value < 0x2_0000_0000,
        decreases 5 - k,
    {
        let d: u64 = if k < b.len() {
            let c = b[k];
            if (c as u32) < 33 || (c as u32) > 117 {
                return Err(DecodeError { kind: DecodeErrorKind::InvalidCharacter });
            }
            (c as u32 - 33) as u64
        } else {
            84
        };
        assert(d as int == padded_digit(b@, k as int));
        assert(value * 85 + d < 0x2_0000_0000) by (nonlinear_arith)
            requires
                value as int == 0 || k >= 1,
                k <= 4,
                d < 85,
                value < 85 * 85 * 85 * 85,
        {
        }
        value = value * 85 + d;
        k = k + 1;
    }
    if value > 0xFFFF_FFFF {
        return Err(DecodeError { kind: DecodeErrorKind::Overflow });
    }
    let bytes: [u8; 4] = [
        ((value / 0x1000000) % 256) as u8,
        ((value / 0x10000) % 256) as u8,
        ((value / 0x100) % 256) as u8,
        (value % 256) as u8,
    ];
    let mut out: Vec<u8> = Vec::new();
    let n = b.len() - 1;
    let mut m: usize = 0;
    while m < n
        invariant
            n == b@.len() - 1,
            b@.len() <= 5,
            m <= n,
            value as int == group_value(b@),
            bytes@ == be_bytes(value as int),
            out@ == be_bytes(value as int).take(m as int),
        decreases n - m,
    {
        out.push(bytes[m]);
        proof {
            assert(be_bytes(value as int).take(m + 1) == be_bytes(value as int).take(m as int).push(
                bytes@[m as int],
            ));
        }
        m = m + 1;
    }
    Ok(out)
}

/// Whether `c` is whitespace.
fn is_ws_char(c: char) -> (r: bool)
    ensures
        r == is_ws(c),
{
    c == ' ' || c == '\t' || c == '\n' || c == '\r'
}

/// Whether `c` belongs to the alphabet `!`..`u`.
fn is_ascii85_char(c: char) -> (r: bool)
    ensures
        r == is_ascii85_value(c),
{
    let v: u32 = c as u32;
    33 <= v && v <= 117
}

/// The first position at or after `i` that holds no whitespace.
fn skip_whitespace(cs: &Vec<char>, i: usize) -> (r: usize)
    requires
        i <= cs@.len(),
    ensures
        r == skip_ws(cs@, i as int),
        i <= r <= cs@.len(),
{
    let mut p: usize = i;
    while p < cs.len() && is_ws_char(cs[p])
        invariant
            i <= p <= cs@.len(),
            skip_ws(cs@, i as int) == skip_ws(cs@, p as int),
        decreases cs@.len() - p,
    {
        p = p + 1;
    }
    p
}

proof fn lemma_groups_ws(s: Seq<char>, i: int, g: Seq<char>)
    requires
        0 <= i < s.len(),
        is_ws(s[i]),
    ensures
        parse_groups(s, i, g) == parse_groups(s, i + 1, g),
{
    reveal(parse_groups);
}

proof fn lemma_groups_push(s: Seq<char>, i: int, g: Seq<char>)
    requires
        0 <= i < s.len(),
        is_ascii85_value(s[i]),
        g.len() < 4,
    ensures
        parse_groups(s, i, g) == parse_groups(s, i + 1, g.push(s[i])),
{
    reveal(parse_groups);
}

proof fn lemma_groups_full(s: Seq<char>, i: int, g: Seq<char>)
    requires
        0 <= i < s.len(),
        is_ascii85_value(s[i]),
        g.len() >= 4,
    ensures
        parse_groups(s, i, g) == prepend(flush(g.push(s[i])), parse_groups(s, i + 1, Seq::empty())),
{
    reveal(parse_groups);
    reveal(flush);
}

proof fn lemma_groups_zero(s: Seq<char>, i: int, g: Seq<char>)
    requires
        0 <= i < s.len(),
        s[i] == 'z',
    ensures
        parse_groups(s, i, g) == prepend(
            flush(g),
            prepend(Ok(seq![0u8, 0u8, 0u8, 0u8]), parse_groups(s, i + 1, Seq::empty())),
        ),
{
    reveal(parse_groups);
}

proof fn lemma_groups_stop(s: Seq<char>, i: int, g: Seq<char>)
    requires
        0 <= i,
        i >= s.len() || (!is_ws(s[i]) && !is_ascii85_value(s[i]) && s[i] != 'z'),
    ensures
        parse_groups(s, i, g) == prepend(flush(g), Ok((Seq::<u8>::empty(), i))),
{
    reveal(parse_groups);
    reveal(flush);
}

/// A character that may stand in a decodable text.
pub open spec fn text_char(c: char) -> bool {
    is_ws(c) || is_ascii85_value(c) || c == 'z' || c == '~'
}

proof fn lemma_skip_ws_chars(s: Seq<char>, i: int)
    requires
        0 <= i,
    ensures
        i <= skip_ws(s, i),
        skip_ws(s, i) <= s.len() || skip_ws(s, i) == i,
        forall|k: int| i <= k < skip_ws(s, i) ==> is_ws(#[trigger] s[k]),
    decreases s.len() - i,
{
    if 0 <= i < s.len() && is_ws(s[i]) {
        lemma_skip_ws_chars(s, i + 1);
    }
}

proof fn lemma_prepend_end(
    head: Result<Seq<u8>, DecodeErrorKind>,
    rest: Result<(Seq<u8>, int), DecodeErrorKind>,
)
    ensures
        prepend(head, rest) is Ok ==> rest is Ok && prepend(head, rest)->Ok_0.1 == rest->Ok_0.1,
{
}

/// Where the groups parse, every character from `i` to where they end is
/// whitespace, a group character or `z`.
proof fn lemma_groups_chars(s: Seq<char>, i: int, g: Seq<char>)
    requires
        0 <= i,
    ensures
        parse_groups(s, i, g) is Ok ==> {
            let e = parse_groups(s, i, g)->Ok_0.1;
            &&& i <= e
            &&& e <= s.len() || e == i
            &&& forall|k: int|
                i <= k < e ==> (is_ws(#[trigger] s[k]) || is_ascii85_value(s[k]) || s[k] == 'z')
        },
    decreases s.len() - i,
{
    reveal(parse_groups);
    if i >= s.len() {
    } else if is_ws(s[i]) {
        lemma_groups_chars(s, i + 1, g);
    } else if is_ascii85_value(s[i]) {
        if g.len() >= 4 {
            lemma_groups_chars(s, i + 1, Seq::empty());
            lemma_prepend_end(decode_group(g.push(s[i])), parse_groups(s, i + 1, Seq::empty()));
        } else {
            lemma_groups_chars(s, i + 1, g.push(s[i]));
        }
    } else if s[i] == 'z' {
        lemma_groups_chars(s, i + 1, Seq::empty());
        let inner = prepend(Ok(seq![0u8, 0u8, 0u8, 0u8]), parse_groups(s, i + 1, Seq::empty()));
        lemma_prepend_end(Ok(seq![0u8, 0u8, 0u8, 0u8]), parse_groups(s, i + 1, Seq::empty()));
        lemma_prepend_end(flush(g), inner);
    } else {
        lemma_prepend_end(flush(g), Ok((Seq::<u8>::empty(), i)));
    }
}

/// Decoding succeeds only on text made of whitespace, characters of
/// `!`..`u`, `z` and the `~` of the markers: any other character in the
/// input makes it fail.
pub proof fn lemma_decoded_text_chars(s: Seq<char>)
    ensures
        decoded(s) is Ok ==> forall|k: int| 0 <= k < s.len() ==> text_char(#[trigger] s[k]),
{
    let p = skip_ws(s, 0);
    lemma_skip_ws_chars(s, 0);
    if decoded(s) is Ok {
        lemma_groups_chars(s, p + 2, Seq::empty());
        let e = parse_groups(s, p + 2, Seq::empty())->Ok_0.1;
        lemma_skip_ws_chars(s, e + 2);
        assert forall|k: int| 0 <= k < s.len() implies text_char(#[trigger] s[k]) by {
            if k < p {
            } else if k == p || k == p + 1 {
            } else if k < e {
            } else if k == e || k == e + 1 {
            } else {
            }
        }
    }
}

/// The bytes that follow a closed group: four zero bytes for `z`.
pub open spec fn closing_tail(zero: bool) -> Seq<u8> {
    if zero {
        seq![0u8, 0u8, 0u8, 0u8]
    } else {
        Seq::empty()
    }
}

proof fn lemma_close(
    a: Seq<u8>,
    v: Seq<u8>,
    zero: bool,
    rest: Result<(Seq<u8>, int), DecodeErrorKind>,
)
    ensures
        prepend(
            Ok(a),
            prepend(
                Ok(v),
                if zero {
                    prepend(Ok(closing_tail(zero)), rest)
                } else {
                    rest
                },
            ),
        ) == prepend(Ok(a + v + closing_tail(zero)), rest),
{
    match rest {
        Ok((b, e)) => {
            if zero {
                assert(a + (v + (closing_tail(zero) + b)) == a + v + closing_tail(zero) + b);
            } else {
                assert(a + (v + b) == a + v + closing_tail(zero) + b);
            }
        },
        Err(_) => {},
    }
}

/// Closes the pending group `g`, appending its bytes to `out`, then four
/// zero bytes where `zero` holds.
fn close_group(g: &Vec<char>, zero: bool, out: &mut Vec<u8>) -> (r: Result<(), DecodeError>)
    requires
        g@.len() <= 5,
    ensures
        match flush(g@) {
            Ok(v) => r is Ok && final(out)@ == old(out)@ + v + closing_tail(zero),
            Err(k) => r is Err && r->Err_0.kind == k,
        },
{
    reveal(flush);
    if g.len() > 0 {
        match decode_sequence(g.as_slice()) {
            Ok(bytes) => {
                append_range(out, bytes.as_slice(), 0, bytes.len());
                assert(bytes@.subrange(0, bytes@.len() as int) == bytes@);
            },
            Err(e) => {
                return Err(e);
            },
        }
    } else {
        assert(out@ + Seq::<u8>::empty() == out@);
    }
    let ghost mid = out@;
    if zero {
        out.push(0);
        out.push(0);
        out.push(0);
        out.push(0);
        assert(out@ == mid + closing_tail(zero));
    } else {
        assert(out@ == mid + closing_tail(zero));
    }
    Ok(())
}

/// Decodes the groups that start at `start`: the bytes, and the position of
/// the first character that ends them.
fn decode_groups(cs: &Vec<char>, start: usize) -> (r: Result<(Vec<u8>, usize), DecodeError>)
    requires
        start <= cs@.len(),
    ensures
        match parse_groups(cs@, start as int, Seq::empty()) {
            Ok((v, e)) => r is Ok && r->Ok_0.0@ == v && r->Ok_0.1 == e && e <= cs@.len(),
            Err(k) => r is Err && r->Err_0.kind == k,
        },
{
    let n = cs.len();
    let mut i: usize = start;
    let mut g: Vec<char> = Vec::new();
    let mut out: Vec<u8> = Vec::new();
    proof {
        match parse_groups(cs@, start as int, Seq::empty()) {
            Ok((x, e)) => assert(out@ + x == x),
            Err(_) => {},
        }
    }
    loop
        invariant
            n == cs@.len(),
            start <= i <= n,
            g@.len() <= 4,
            parse_groups(cs@, start as int, Seq::empty()) == prepend(
                Ok(out@),
                parse_groups(cs@, i as int, g@),
            ),
        ensures
            start <= i <= n,
            g@.len() <= 4,
            parse_groups(cs@, start as int, Seq::empty()) == prepend(
                Ok(out@),
                parse_groups(cs@, i as int, g@),
            ),
            i >= n || (!is_ws(cs@[i as int]) && !is_ascii85_value(cs@[i as int]) && cs@[i as int]
                != 'z'),
        decreases n - i,
    {
        if i >= n {
            break;
        }
        let c = cs[i];
        assert(c == cs@[i as int]);
        let is_digit = is_ascii85_char(c);
        if is_ws_char(c) {
            proof {
                lemma_groups_ws(cs@, i as int, g@);
            }
            i = i + 1;
        } else if is_digit && g.len() < 4 {
            proof {
                lemma_groups_push(cs@, i as int, g@);
            }
            g.push(c);
            i = i + 1;
        } else if is_digit || c == 'z' {
            let ghost rest = parse_groups(cs@, i + 1, Seq::empty());
            let ghost before = out@;
            proof {
                if is_digit {
                    lemma_groups_full(cs@, i as int, g@);
                } else {
                    lemma_groups_zero(cs@, i as int, g@);
                }
            }
            if is_digit {
                g.push(c);
            }
            let zero = !is_digit;
            match close_group(&g, zero, &mut out) {
                Ok(()) => {
                    proof {
                        lemma_close(before, flush(g@)->Ok_0, zero, rest);
                    }
                },
                Err(e) => {
                    return Err(e);
                },
            }
            g = Vec::new();
            i = i + 1;
        } else {
            break;
        }
    }
    proof {
        lemma_groups_stop(cs@, i as int, g@);
    }
    let ghost before = out@;
    let ghost tail = Ok::<(Seq<u8>, int), DecodeErrorKind>((Seq::<u8>::empty(), i as int));
    assert(parse_groups(cs@, start as int, Seq::empty()) == prepend(Ok(before), prepend(flush(g@), tail)));
    match close_group(&g, false, &mut out) {
        Ok(()) => {},
        Err(e) => {
            assert(prepend(flush(g@), tail) == Err::<(Seq<u8>, int), DecodeErrorKind>(e.kind));
            return Err(e);
        },
    }
    proof {
        let v = flush(g@)->Ok_0;
        lemma_close(before, v, false, tail);
        assert(out@ == before + v + closing_tail(false));
        assert(out@ + Seq::<u8>::empty() == out@);
    }
    Ok((out, i))
}

/// Decodes an Ascii85 text: optional whitespace, the start marker `<~`,
/// groups of one to five characters of `!`..`u` (a group of `n` characters
/// gives `n - 1` bytes) or `z` (four zero bytes), with whitespace anywhere
/// between them, the end marker `~>`, and nothing after it but whitespace.
pub fn decode_ascii85_str(b: &str) -> (r: Result<Vec<u8>, DecodeError>)
    ensures
        match decoded(b@) {
            Ok(v) => r is Ok && r->Ok_0@ == v,
            Err(k) => r is Err && r->Err_0.kind == k,
        },
{
    let mut cs: Vec<char> = Vec::new();
    for c in it: b.chars()
        invariant
            cs@ == it.seq().take(it.index() as int),
    {
        cs.push(c);
    }
    assert(cs@ == b@);
    let n = cs.len();
    let p = skip_whitespace(&cs, 0);
    if !(p < n && p + 1 < n && cs[p] == '<' && cs[p + 1] == '~') {
        return Err(DecodeError { kind: DecodeErrorKind::Syntax });
    }
    let (out, i) = match decode_groups(&cs, p + 2) {
        Ok(x) => x,
        Err(e) => {
            return Err(e);
        },
    };
    if i < n && i + 1 < n && cs[i] == '~' && cs[i + 1] == '>' {
        let q = skip_whitespace(&cs, i + 2);
        if q == n {
            Ok(out)
        } else {
            Err(DecodeError { kind: DecodeErrorKind::Syntax })
        }
    } else if i < n && cs[i] != '~' {
        Err(DecodeError { kind: DecodeErrorKind::InvalidCharacter })
    } else {
        Err(DecodeError { kind: DecodeErrorKind::Syntax })
    }
}

} // verus!
