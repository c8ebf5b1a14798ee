//! Building text: appending to strings, decimal numbers and escaping.

use vstd::prelude::*;

verus! {

/// Appends `t` to `s`.
///
/// Calls `String::push_str`, which appends the characters of `t` to the end
/// of `s`; the contract claims exactly that.
#[verifier::external_body]
pub(crate) fn push_str(s: &mut String, t: &str)
    ensures
        final(s)@ == old(s)@ + t@,
{
    s.push_str(t);
}

/// Appends `c` to `s`.
///
/// Calls `String::push`, which appends one character to the end of `s`;
/// the contract claims exactly that.
#[verifier::external_body]
pub(crate) fn push_char(s: &mut String, c: char)
    ensures
        final(s)@ == old(s)@.push(c),
{
    s.push(c);
}

/// The decimal digit character of `d`, for `d < 10`.
pub open spec fn digit_char(d: nat) -> char {
    if d == 0 { '0' }
    else if d == 1 { '1' }
    else if d == 2 { '2' }
    else if d == 3 { '3' }
    else if d == 4 { '4' }
    else if d == 5 { '5' }
    else if d == 6 { '6' }
    else if d == 7 { '7' }
    else if d == 8 { '8' }
    else { '9' }
}

/// The decimal representation of `n`, without leading zeros.
pub open spec fn decimal(n: nat) -> Seq<char>
    decreases n,
{
    if n < 10 {
        seq![digit_char(n)]
    } else {
        decimal(n / 10).push(digit_char(n % 10))
    }
}

fn digit(d: u64) -> (c: char)
    requires
        d < 10,
    ensures
        c == digit_char(d as nat),
{
    if d == 0 { '0' }
    else if d == 1 { '1' }
    else if d == 2 { '2' }
    else if d == 3 { '3' }
    else if d == 4 { '4' }
    else if d == 5 { '5' }
    else if d == 6 { '6' }
    else if d == 7 { '7' }
    else if d == 8 { '8' }
    else { '9' }
}

/// Appends the decimal representation of `n`.
pub fn push_decimal(s: &mut String, n: u64)
    ensures
        final(s)@ == old(s)@ + decimal(n as nat),
    decreases n,
{
    if n >= 10 {
        push_decimal(s, n / 10);
    }
    push_char(s, digit(n % 10));
    assert(final(s)@ =~= old(s)@ + decimal(n as nat));
}

/// The decimal representation of `n`.
pub fn u64_to_decimal(n: u64) -> (s: String)
    ensures
        s@ == decimal(n as nat),
{
    let mut s = String::new();
    push_decimal(&mut s, n);
    assert(s@ =~= decimal(n as nat));
    s
}

/// `c` as it stands inside a JSON string: backslash, quote, newline and
/// carriage return are escaped.
pub open spec fn json_escape_char(c: char) -> Seq<char> {
    if c == '\\' { seq!['\\', '\\'] }
    else if c == '"' { seq!['\\', '"'] }
    else if c == '\n' { seq!['\\', 'n'] }
    else if c == '\r' { seq!['\\', 'r'] }
    else { seq![c] }
}

/// `s` as it stands inside a JSON string.
pub open spec fn json_escaped(s: Seq<char>) -> Seq<char>
    decreases s.len(),
{
    if s.len() == 0 { Seq::empty() } else { json_escaped(s.drop_last()) + json_escape_char(s.last()) }
}

/// `c` as it stands inside a quoted Prometheus label value: backslash and
/// quote are escaped.
pub open spec fn label_escape_char(c: char) -> Seq<char> {
    if c == '\\' { seq!['\\', '\\'] }
    else if c == '"' { seq!['\\', '"'] }
    else { seq![c] }
}

/// `s` as it stands inside a quoted Prometheus label value.
pub open spec fn label_escaped(s: Seq<char>) -> Seq<char>
    decreases s.len(),
{
    if s.len() == 0 { Seq::empty() } else { label_escaped(s.drop_last()) + label_escape_char(s.last()) }
}

/// Appends `input` escaped for a JSON string (or, when `json` is false, for
/// a Prometheus label value).
pub fn push_escaped(out: &mut String, input: &str, json: bool)
    ensures
        json ==> final(out)@ == old(out)@ + json_escaped(input@),
        !json ==> final(out)@ == old(out)@ + label_escaped(input@),
{
    let ghost start = out@;
    let ghost chars = input@;
    let mut done: Ghost<Seq<char>> = Ghost(Seq::empty());
    assert(chars.take(0) =~= Seq::<char>::empty());
    assert(json_escaped(Seq::<char>::empty()) =~= Seq::<char>::empty());
    assert(label_escaped(Seq::<char>::empty()) =~= Seq::<char>::empty());
    assert(start + Seq::<char>::empty() =~= start);
    for c in it: input.chars()
        invariant
            chars == input@,
            it.seq() == chars,
            done@ == chars.take(it.index() as int),
            json ==> out@ == start + json_escaped(done@),
            !json ==> out@ == start + label_escaped(done@),
    {
        let ghost prev = done@;
        let ghost i = it.index();
        assert(chars.take(i + 1) =~= chars.take(i as int).push(c));
        if c == '\\' {
            push_char(out, '\\');
            push_char(out, '\\');
        } else if c == '"' {
            push_char(out, '\\');
            push_char(out, '"');
        } else if json && c == '\n' {
            push_char(out, '\\');
            push_char(out, 'n');
        } else if json && c == '\r' {
            push_char(out, '\\');
            push_char(out, 'r');
        } else {
            push_char(out, c);
        }
        proof {
            done@ = prev.push(c);
            assert(done@.drop_last() =~= prev);
            assert(out@ =~= if json { start + json_escaped(done@) } else { start + label_escaped(done@) });
        }
    }
    assert(chars.take(chars.len() as int) =~= chars);
}

} // verus!

verus! {

broadcast use vstd::utf8::encode_utf8_decode_utf8;

/// Whether two byte sequences are equal, compared byte by byte.
fn bytes_eq(a: &[u8], b: &[u8]) -> (r: bool)
    ensures
        r == (a@ == b@),
{
    if a.len() != b.len() {
        return false;
    }
    let mut i: usize = 0;
    while i < a.len()
        invariant
            a@.len() == b@.len(),
            i <= a@.len(),
            forall|j: int| 0 <= j < i ==> a@[j] == b@[j],
        decreases a@.len() - i,
    {
        if a[i] != b[i] {
            return false;
        }
        i = i + 1;
    }
    assert(a@ =~= b@);
    true
}

/// Whether two strings hold the same characters.
pub fn str_eq(a: &str, b: &str) -> (r: bool)
    ensures
        r == (a@ == b@),
{
    let r = bytes_eq(a.as_bytes(), b.as_bytes());
    proof {
        if r {
            assert(vstd::utf8::decode_utf8(vstd::utf8::encode_utf8(a@)) == a@);
            assert(vstd::utf8::decode_utf8(vstd::utf8::encode_utf8(b@)) == b@);
        }
    }
    r
}

} // verus!

verus! {

/// Lexicographic order on bytes: a proper prefix comes first.
pub open spec fn bytes_lt(a: Seq<u8>, b: Seq<u8>) -> bool
    decreases a.len(),
{
    if a.len() == 0 {
        b.len() > 0
    } else if b.len() == 0 {
        false
    } else if a[0] != b[0] {
        a[0] < b[0]
    } else {
        bytes_lt(a.drop_first(), b.drop_first())
    }
}

/// The order of strings: lexicographic on their UTF-8 bytes, as `str`
/// compares.
pub open spec fn str_lt(a: Seq<char>, b: Seq<char>) -> bool {
    bytes_lt(vstd::utf8::encode_utf8(a), vstd::utf8::encode_utf8(b))
}

pub proof fn lemma_bytes_lt_irreflexive(a: Seq<u8>)
    ensures
        !bytes_lt(a, a),
    decreases a.len(),
{
    if a.len() > 0 {
        lemma_bytes_lt_irreflexive(a.drop_first());
    }
}

pub proof fn lemma_bytes_lt_transitive(a: Seq<u8>, b: Seq<u8>, c: Seq<u8>)
    requires
        bytes_lt(a, b),
        bytes_lt(b, c),
    ensures
        bytes_lt(a, c),
    decreases a.len(),
{
    if a.len() > 0 && b.len() > 0 && c.len() > 0 && a[0] == b[0] && b[0] == c[0] {
        lemma_bytes_lt_transitive(a.drop_first(), b.drop_first(), c.drop_first());
    }
}

pub proof fn lemma_bytes_lt_total(a: Seq<u8>, b: Seq<u8>)
    ensures
        a != b ==> bytes_lt(a, b) || bytes_lt(b, a),
        !(bytes_lt(a, b) && bytes_lt(b, a)),
    decreases a.len(),
{
    if a.len() > 0 && b.len() > 0 && a[0] == b[0] {
        lemma_bytes_lt_total(a.drop_first(), b.drop_first());
        if a != b {
            assert(a =~= seq![a[0]] + a.drop_first());
            assert(b =~= seq![b[0]] + b.drop_first());
        }
    } else if a.len() == 0 && b.len() == 0 {
        assert(a =~= b);
    }
}

/// The string order is a strict total order.
pub proof fn lemma_str_lt_order(a: Seq<char>, b: Seq<char>, c: Seq<char>)
    ensures
        !str_lt(a, a),
        str_lt(a, b) && str_lt(b, c) ==> str_lt(a, c),
        a != b ==> str_lt(a, b) || str_lt(b, a),
        !(str_lt(a, b) && str_lt(b, a)),
{
    let ea = vstd::utf8::encode_utf8(a);
    let eb = vstd::utf8::encode_utf8(b);
    let ec = vstd::utf8::encode_utf8(c);
    lemma_bytes_lt_irreflexive(ea);
    if str_lt(a, b) && str_lt(b, c) {
        lemma_bytes_lt_transitive(ea, eb, ec);
    }
    lemma_bytes_lt_total(ea, eb);
    if a != b {
        assert(vstd::utf8::decode_utf8(ea) == a);
        assert(vstd::utf8::decode_utf8(eb) == b);
    }
}

/// The outcome of comparing two strings.
#[derive(Debug, Clone, Copy, PartialEq, Eq, Structural)]
pub enum Order {
    Less,
    Equal,
    Greater,
}

/// Compares two strings in `str_lt` order.
pub fn compare_str(a: &str, b: &str) -> (r: Order)
    ensures
        r == Order::Less <==> str_lt(a@, b@),
        r == Order::Equal <==> a@ == b@,
        r == Order::Greater <==> str_lt(b@, a@),
{
    let x = a.as_bytes();
    let y = b.as_bytes();
    let ghost ex = x@;
    let ghost ey = y@;
    let mut i: usize = 0;
    proof {
        assert(ex.skip(0) =~= ex);
        assert(ey.skip(0) =~= ey);
        lemma_str_lt_order(a@, b@, b@);
    }
    let mut r = Order::Equal;
    loop
        invariant
            ex == x@,
            ey == y@,
            i <= ex.len(),
            i <= ey.len(),
            ex.take(i as int) == ey.take(i as int),
            bytes_lt(ex, ey) == bytes_lt(ex.skip(i as int), ey.skip(i as int)),
            bytes_lt(ey, ex) == bytes_lt(ey.skip(i as int), ex.skip(i as int)),
        ensures
            r == Order::Less <==> bytes_lt(ex, ey),
            r == Order::Equal <==> ex == ey,
            r == Order::Greater <==> bytes_lt(ey, ex),
        decreases ex.len() - i,
    {
        if i == x.len() && i == y.len() {
            assert(ex =~= ex.take(i as int));
            assert(ey =~= ey.take(i as int));
            proof { lemma_bytes_lt_irreflexive(ex); }
            r = Order::Equal;
            break;
        }
        if i == x.len() {
            assert(ex != ey);
            r = Order::Less;
            break;
        }
        if i == y.len() {
            assert(ex != ey);
            r = Order::Greater;
            break;
        }
        assert(ex.skip(i as int)[0] == ex[i as int]);
        assert(ey.skip(i as int)[0] == ey[i as int]);
        if x[i] < y[i] {
            assert(ex[i as int] != ey[i as int]);
            r = Order::Less;
            break;
        }
        if x[i] > y[i] {
            assert(ex[i as int] != ey[i as int]);
            r = Order::Greater;
            break;
        }
        assert(ex.skip(i as int).drop_first() =~= ex.skip(i + 1));
        assert(ey.skip(i as int).drop_first() =~= ey.skip(i + 1));
        assert(ex.take(i + 1) =~= ex.take(i as int).push(ex[i as int]));
        assert(ey.take(i + 1) =~= ey.take(i as int).push(ey[i as int]));
        i = i + 1;
    }
    proof {
        if a@ == b@ {
            assert(ex == ey);
        }
        if ex == ey {
            assert(vstd::utf8::decode_utf8(ex) == a@);
            assert(vstd::utf8::decode_utf8(ey) == b@);
        }
    }
    r
}

} // verus!
