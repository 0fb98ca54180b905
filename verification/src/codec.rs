//! The text wire format exchanged over live streams.
//!
//! One client-to-server shape — a direct-message request carrying the
//! destination user and the content — and one server-to-client family: a
//! freshly persisted message, a batch of messages, or a sent-confirmation.
//!
//! The canonical form defined here is the protocol: fields in the fixed
//! order below, no whitespace, content strings with exactly `"` and `\`
//! escaped by a backslash. Clients must transmit this form; the parser
//! accepts exactly the canonical encodings and the server drops any other
//! frame. This is deliberately narrower than a general JSON reader: every
//! byte of an accepted frame is accounted for by the grammar, and what the
//! server emits round-trips, which is proved below.

use vstd::prelude::*;
use vstd::string::StrSliceExecFns;
use vstd::string::StringExecFns;

use crate::msg::WsClientboundPayload;
use crate::records::PublicUserMessage;

verus! {

/// The decimal digit characters.
pub open spec fn digit_char(d: int) -> char {
    seq!['0', '1', '2', '3', '4', '5', '6', '7', '8', '9'][d]
}

/// `c` is a decimal digit.
pub open spec fn is_digit(c: char) -> bool {
    48 <= c as u32 && c as u32 <= 57
}

/// Numeric value of a digit character.
pub open spec fn digit_val(c: char) -> int {
    c as u32 - 48
}

/// Canonical decimal numeral of `n`, most significant digit first.
pub open spec fn dec_u64(n: nat) -> Seq<char>
    decreases n,
{
    if n < 10 {
        seq![digit_char(n as int)]
    } else {
        dec_u64(n / 10).push(digit_char((n % 10) as int))
    }
}

/// How one character appears inside a quoted string: `"` and `\` get a
/// backslash in front, everything else passes through.
pub open spec fn esc_char(c: char) -> Seq<char> {
    if c == '"' || c == '\\' {
        seq!['\\', c]
    } else {
        seq![c]
    }
}

/// Escaped form of a whole string body.
pub open spec fn esc(s: Seq<char>) -> Seq<char>
    decreases s.len(),
{
    if s.len() == 0 {
        Seq::<char>::empty()
    } else {
        esc_char(s[0]) + esc(s.drop_first())
    }
}

/// Opening of the client-to-server direct-message shape.
pub open spec fn sb_pre() -> Seq<char> {
    "{\"NewUserMessage\":{\"to\":"@
}

/// Separator between the destination and the content field.
pub open spec fn sb_mid() -> Seq<char> {
    ",\"content\":\""@
}

/// Closing of the client-to-server shape, after the content's quote.
pub open spec fn sb_suf() -> Seq<char> {
    "}}"@
}

/// Canonical encoding of a direct-message request: destination user `to`,
/// content `content`.
pub open spec fn serverbound_enc(to: u32, content: Seq<char>) -> Seq<char> {
    sb_pre() + dec_u64(to as nat) + sb_mid() + esc(content) + seq!['"'] + sb_suf()
}

// ---------------------------------------------------------------------------
// Encoding
// ---------------------------------------------------------------------------
/// Relies on `String::push`: appends exactly the given character.
#[verifier::external_body]
fn push_char(s: &mut String, c: char)
    ensures
        final(s)@ == old(s)@.push(c),
{
    s.push(c);
}

/// Append the canonical decimal numeral of `n`.
fn push_dec_u64(s: &mut String, n: u64)
    ensures
        final(s)@ == old(s)@ + dec_u64(n as nat),
    decreases n,
{
    if n < 10 {
        let c = ((48 + n) as u8) as char;
        push_char(s, c);
        proof {
            assert(dec_u64(n as nat) == seq![digit_char(n as int)]);
            assert(digit_char(n as int) as u32 == 48 + n) by {
                reveal_strlit("0123456789");
            }
            assert(c == digit_char(n as int));
            assert(old(s)@.push(c) =~= old(s)@ + dec_u64(n as nat));
        }
    } else {
        push_dec_u64(s, n / 10);
        let d = n % 10;
        let c = ((48 + d) as u8) as char;
        push_char(s, c);
        proof {
            assert(digit_char(d as int) as u32 == 48 + d) by {
                reveal_strlit("0123456789");
            }
            assert(c == digit_char(d as int));
            assert(dec_u64(n as nat) == dec_u64((n / 10) as nat).push(digit_char((n % 10) as int)));
            assert((old(s)@ + dec_u64((n / 10) as nat)).push(c) =~= old(s)@ + dec_u64(n as nat));
        }
    }
}

/// Escaping distributes over concatenation.
pub proof fn lemma_esc_append(a: Seq<char>, b: Seq<char>)
    ensures
        esc(a + b) == esc(a) + esc(b),
    decreases a.len(),
{
    if a.len() == 0 {
        assert(a + b =~= b);
        assert(esc(a) =~= Seq::<char>::empty());
        assert(esc(a) + esc(b) =~= esc(b));
    } else {
        assert((a + b).drop_first() =~= a.drop_first() + b);
        lemma_esc_append(a.drop_first(), b);
        assert(esc(a + b) == esc_char(a[0]) + (esc(a.drop_first()) + esc(b)));
        assert(esc_char(a[0]) + (esc(a.drop_first()) + esc(b)) =~= (esc_char(a[0]) + esc(
            a.drop_first(),
        )) + esc(b));
    }
}

/// Append the escaped form of `t`.
fn push_escaped(s: &mut String, t: &str)
    ensures
        final(s)@ == old(s)@ + esc(t@),
{
    let n = t.unicode_len();
    let mut i: usize = 0;
    proof {
        assert(t@.subrange(0, 0) =~= Seq::<char>::empty());
        assert(esc(Seq::<char>::empty()) =~= Seq::<char>::empty());
        assert(old(s)@ + Seq::<char>::empty() =~= old(s)@);
    }
    while i < n
        invariant
            n == t@.len(),
            0 <= i <= n,
            s@ == old(s)@ + esc(t@.subrange(0, i as int)),
        decreases n - i,
    {
        let c = t.get_char(i);
        let ghost pre = t@.subrange(0, i as int);
        if c == '"' || c == '\\' {
            push_char(s, '\\');
            push_char(s, c);
        } else {
            push_char(s, c);
        }
        proof {
            assert(t@.subrange(0, i + 1) =~= pre + seq![t@[i as int]]);
            lemma_esc_append(pre, seq![t@[i as int]]);
            assert(seq![t@[i as int]].drop_first() =~= Seq::<char>::empty());
            assert(esc(Seq::<char>::empty()) =~= Seq::<char>::empty());
            assert(esc(seq![t@[i as int]]) =~= esc_char(t@[i as int]) + Seq::<char>::empty());
            assert(esc_char(t@[i as int]) + Seq::<char>::empty() =~= esc_char(t@[i as int]));
            if c == '"' || c == '\\' {
                assert(esc_char(t@[i as int]) =~= seq!['\\', c]);
            } else {
                assert(esc_char(t@[i as int]) =~= seq![c]);
            }
        }
        i = i + 1;
        assert(s@ =~= old(s)@ + esc(t@.subrange(0, i as int)));
    }
    proof {
        assert(t@.subrange(0, n as int) =~= t@);
    }
}

// ---------------------------------------------------------------------------
// Parsing
// ---------------------------------------------------------------------------
/// `s` begins with `lit`.
pub open spec fn starts_with(s: Seq<char>, lit: Seq<char>) -> bool {
    lit.len() <= s.len() && s.subrange(0, lit.len() as int) == lit
}

/// Length of the run of digits at the front of `s`.
pub open spec fn digit_run(s: Seq<char>) -> nat
    decreases s.len(),
{
    if s.len() > 0 && is_digit(s[0]) {
        (1 + digit_run(s.drop_first())) as nat
    } else {
        0
    }
}

/// Numeric value of a digit sequence, most significant digit first.
pub open spec fn digits_value(ds: Seq<char>) -> nat
    decreases ds.len(),
{
    if ds.len() == 0 {
        0
    } else {
        (digits_value(ds.drop_last()) * 10 + digit_val(ds.last())) as nat
    }
}

/// Read a quoted string body: stop at the first unescaped `"`; a backslash
/// must be followed by `"` or `\`, which it quotes. Yields the unescaped body
/// and the suffix after the closing quote.
pub open spec fn scan_string(s: Seq<char>) -> Option<(Seq<char>, Seq<char>)>
    decreases s.len(),
{
    if s.len() == 0 {
        None
    } else if s[0] == '"' {
        Some((Seq::<char>::empty(), s.drop_first()))
    } else if s[0] == '\\' {
        if s.len() >= 2 && (s[1] == '"' || s[1] == '\\') {
            match scan_string(s.subrange(2, s.len() as int)) {
                Some(p) => Some((seq![s[1]] + p.0, p.1)),
                None => None,
            }
        } else {
            None
        }
    } else {
        match scan_string(s.drop_first()) {
            Some(p) => Some((seq![s[0]] + p.0, p.1)),
            None => None,
        }
    }
}

/// The whole client-to-server grammar: exactly the canonical encodings are
/// accepted, yielding the destination user and the content.
pub open spec fn sb_parse(s: Seq<char>) -> Option<(u32, Seq<char>)> {
    if !starts_with(s, sb_pre()) {
        None
    } else {
        let s1 = s.skip(sb_pre().len() as int);
        let k = digit_run(s1);
        if k == 0 {
            None
        } else {
            let v = digits_value(s1.take(k as int));
            if v > u32::MAX {
                None
            } else {
                let s2 = s1.skip(k as int);
                if !starts_with(s2, sb_mid()) {
                    None
                } else {
                    match scan_string(s2.skip(sb_mid().len() as int)) {
                        Some(p) => if p.1 == sb_suf() {
                            Some((v as u32, p.0))
                        } else {
                            None
                        },
                        None => None,
                    }
                }
            }
        }
    }
}

/// Whether `lit` stands at position `i` of `s`.
fn match_lit(s: &str, i: usize, lit: &str) -> (r: bool)
    requires
        i <= s@.len(),
    ensures
        r == starts_with(s@.skip(i as int), lit@),
{
    let n = s.unicode_len();
    let m = lit.unicode_len();
    if m > n - i {
        assert(!starts_with(s@.skip(i as int), lit@));
        return false;
    }
    let mut j: usize = 0;
    while j < m
        invariant
            i + m <= n,
            n == s@.len(),
            m == lit@.len(),
            0 <= j <= m,
            forall|x: int| 0 <= x < j ==> s@[i + x] == lit@[x],
        decreases m - j,
    {
        if s.get_char(i + j) != lit.get_char(j) {
            assert(s@.skip(i as int)[j as int] == s@[i + j]);
            assert(!starts_with(s@.skip(i as int), lit@));
            return false;
        }
        j = j + 1;
    }
    proof {
        assert(s@.skip(i as int).subrange(0, m as int) =~= lit@);
    }
    true
}

/// `digit_run(s)` is the position of the first non-digit.
proof fn lemma_digit_run_characterize(s: Seq<char>, k: int)
    requires
        0 <= k <= s.len(),
        forall|m: int| 0 <= m < k ==> is_digit(s[m]),
        k == s.len() || !is_digit(s[k]),
    ensures
        digit_run(s) == k,
    decreases k,
{
    if k == 0 {
    } else {
        assert(is_digit(s[0]));
        lemma_digit_run_characterize(s.drop_first(), k - 1);
    }
}

/// Read the digit run at position `i`, if any, as a `u32`.
fn parse_num(s: &str, i: usize) -> (r: Option<(u32, usize)>)
    requires
        i <= s@.len(),
    ensures
        ({
            let suf = s@.skip(i as int);
            let k = digit_run(suf);
            &&& (r matches Some(p) ==> k > 0 && digits_value(suf.take(k as int)) <= u32::MAX
                && p.0 == digits_value(suf.take(k as int)) && p.1 == i + k)
            &&& (r is None ==> k == 0 || digits_value(suf.take(k as int)) > u32::MAX)
        }),
{
    let ghost suf = s@.skip(i as int);
    let n = s.unicode_len();
    let mut j: usize = i;
    let mut acc: u64 = 0;
    let mut over: bool = false;
    loop
        invariant
            i <= j <= n,
            n == s@.len(),
            suf == s@.skip(i as int),
            forall|m: int| 0 <= m < j - i ==> is_digit(suf[m]),
            !over ==> acc == digits_value(suf.take(j - i)) && acc <= u32::MAX,
            over ==> digits_value(suf.take(j - i)) > u32::MAX,
        ensures
            j == n || !is_digit(s@[j as int]),
        decreases n - j,
    {
        if j >= n {
            break ;
        }
        let c = s.get_char(j);
        let u = c as u32;
        if !(48 <= u && u <= 57) {
            break ;
        }
        let d = (u - 48) as u64;
        proof {
            assert(suf[j - i] == s@[j as int]);
            assert(is_digit(suf[j - i]));
            assert(suf.take(j - i + 1).drop_last() =~= suf.take(j - i));
            assert(suf.take(j - i + 1).last() == suf[j - i]);
            assert(digits_value(suf.take(j - i + 1)) == digits_value(suf.take(j - i)) * 10
                + digit_val(suf[j - i]));
        }
        if over {
        } else {
            let next = acc * 10 + d;
            if next > 0xFFFF_FFFF {
                over = true;
            } else {
                acc = next;
            }
        }
        j = j + 1;
    }
    proof {
        assert(j == n || !is_digit(suf[j - i])) by {
            if j < n {
                assert(suf[j - i] == s@[j as int]);
            }
        }
        lemma_digit_run_characterize(suf, j - i);
    }
    if j == i {
        None
    } else if over {
        None
    } else {
        Some((acc as u32, j))
    }
}

/// Read a quoted string body starting at position `i` (just after the opening
/// quote), unescaping it; yields the body and the position after the closing
/// quote.
fn scan_content(s: &str, i: usize) -> (r: Option<(String, usize)>)
    requires
        i <= s@.len(),
    ensures
        ({
            let sc = scan_string(s@.skip(i as int));
            &&& (r matches Some(p) ==> sc matches Some(q) && p.0@ == q.0 && i <= p.1 <= s@.len()
                && s@.skip(p.1 as int) == q.1)
            &&& (r is None ==> sc is None)
        }),
{
    let n = s.unicode_len();
    let mut j: usize = i;
    let mut acc = String::new();
    loop
        invariant
            i <= j <= n,
            n == s@.len(),
            match scan_string(s@.skip(j as int)) {
                Some(q) => scan_string(s@.skip(i as int)) == Some((acc@ + q.0, q.1)),
                None => scan_string(s@.skip(i as int)) is None,
            },
        decreases n - j,
    {
        if j >= n {
            proof {
                assert(s@.skip(j as int) =~= Seq::<char>::empty());
            }
            return None;
        }
        let c = s.get_char(j);
        proof {
            assert(s@.skip(j as int)[0] == s@[j as int]);
            assert(s@.skip(j as int).len() == n - j);
        }
        if c == '"' {
            proof {
                assert(s@.skip(j as int).drop_first() =~= s@.skip(j + 1));
                assert(scan_string(s@.skip(j as int)) == Some(
                    (Seq::<char>::empty(), s@.skip(j + 1)),
                ));
                assert(acc@ + Seq::<char>::empty() =~= acc@);
            }
            return Some((acc, j + 1));
        } else if c == '\\' {
            if j + 1 < n {
                let c2 = s.get_char(j + 1);
                proof {
                    assert(s@.skip(j as int)[1] == s@[j + 1]);
                }
                if c2 == '"' || c2 == '\\' {
                    push_char(&mut acc, c2);
                    proof {
                        assert(s@.skip(j as int).subrange(2, s@.skip(j as int).len() as int)
                            =~= s@.skip(j + 2));
                        match scan_string(s@.skip(j + 2)) {
                            Some(q) => {
                                assert(scan_string(s@.skip(j as int)) == Some(
                                    (seq![c2] + q.0, q.1),
                                ));
                                assert(acc@ + (seq![c2] + q.0) =~= acc@.push(c2) + q.0);
                            },
                            None => {},
                        }
                    }
                    j = j + 2;
                } else {
                    return None;
                }
            } else {
                return None;
            }
        } else {
            push_char(&mut acc, c);
            proof {
                assert(s@.skip(j as int).drop_first() =~= s@.skip(j + 1));
                match scan_string(s@.skip(j + 1)) {
                    Some(q) => {
                        assert(scan_string(s@.skip(j as int)) == Some((seq![c] + q.0, q.1)));
                        assert(acc@ + (seq![c] + q.0) =~= acc@.push(c) + q.0);
                    },
                    None => {},
                }
            }
            j = j + 1;
        }
    }
}

/// Parse a direct-message request; exactly the canonical encodings are
/// accepted.
pub fn parse_serverbound(s: &str) -> (r: Option<(u32, String)>)
    ensures
        r matches Some(p) ==> sb_parse(s@) matches Some(q) && p.0 == q.0 && p.1@ == q.1,
        r is None ==> sb_parse(s@) is None,
{
    let pre = "{\"NewUserMessage\":{\"to\":";
    let mid = ",\"content\":\"";
    let n = s.unicode_len();
    proof {
        assert(s@.skip(0) =~= s@);
    }
    if !match_lit(s, 0, pre) {
        return None;
    }
    let i1 = pre.unicode_len();
    assert(i1 <= s@.len());
    let num = parse_num(s, i1);
    proof {
        assert(s@.skip(i1 as int) == s@.skip(sb_pre().len() as int));
    }
    match num {
        None => None,
        Some((v, i2)) => {
            proof {
                let s1 = s@.skip(sb_pre().len() as int);
                assert(digit_run(s1) <= s1.len()) by {
                    lemma_digit_run_le(s1);
                }
                assert(i2 <= s@.len());
                assert(s@.skip(i2 as int) =~= s1.skip(digit_run(s1) as int));
            }
            if !match_lit(s, i2, mid) {
                return None;
            }
            let i3 = i2 + mid.unicode_len();
            proof {
                let s2 = s@.skip(i2 as int);
                assert(sb_mid().len() <= s2.len());
                assert(i3 <= s@.len());
                assert(s@.skip(i3 as int) =~= s2.skip(sb_mid().len() as int));
            }
            match scan_content(s, i3) {
                None => None,
                Some((content, i4)) => {
                    if n - i4 == 2 && match_lit(s, i4, "}}") {
                        proof {
                            let q1 = s@.skip(i4 as int);
                            assert(sb_suf().len() == 2) by {
                                reveal_strlit("}}");
                            }
                            assert(q1.len() == 2);
                            assert(q1.subrange(0, 2) =~= q1);
                            assert(q1 == sb_suf());
                        }
                        Some((v, content))
                    } else {
                        proof {
                            let q1 = s@.skip(i4 as int);
                            assert(q1 != sb_suf()) by {
                                if q1 == sb_suf() {
                                    assert(q1.len() == sb_suf().len());
                                    assert(sb_suf().len() == 2) by {
                                        reveal_strlit("}}");
                                    }
                                    assert(q1.subrange(0, 2) =~= q1);
                                }
                            }
                        }
                        None
                    }
                },
            }
        },
    }
}

/// The digit run never runs past the end.
proof fn lemma_digit_run_le(s: Seq<char>)
    ensures
        digit_run(s) <= s.len(),
    decreases s.len(),
{
    if s.len() > 0 && is_digit(s[0]) {
        lemma_digit_run_le(s.drop_first());
    }
}

// ---------------------------------------------------------------------------
// Bracketed number lists, as identifier columns are stored
// ---------------------------------------------------------------------------
/// The items of a bracketed list after the opening bracket: numbers
/// separated by commas, closed by the bracket at the very end.
pub open spec fn list_items(s: Seq<char>) -> Option<Seq<u32>>
    decreases s.len(),
{
    let k = digit_run(s);
    if k == 0 || k > s.len() {
        None
    } else if digits_value(s.take(k as int)) > u32::MAX {
        None
    } else {
        let v = (digits_value(s.take(k as int)) as u32);
        let rest = s.skip(k as int);
        if rest.len() == 1 && rest[0] == ']' {
            Some(seq![v])
        } else if rest.len() > 0 && rest[0] == ',' {
            match list_items(rest.drop_first()) {
                Some(vs) => Some(seq![v] + vs),
                None => None,
            }
        } else {
            None
        }
    }
}

/// A bracketed list of numbers: `[]`, or `[n,n,...,n]`, nothing after the
/// closing bracket.
pub open spec fn list_parse(s: Seq<char>) -> Option<Seq<u32>> {
    if s.len() >= 1 && s[0] == '[' {
        let rest = s.drop_first();
        if rest.len() == 1 && rest[0] == ']' {
            Some(Seq::<u32>::empty())
        } else {
            list_items(rest)
        }
    } else {
        None
    }
}

/// Parse a bracketed list of numbers; exactly the canonical form is
/// accepted.
pub fn parse_u32_list(s: &str) -> (r: Option<Vec<u32>>)
    ensures
        ({
            match list_parse(s@) {
                Some(l) => r matches Some(v) && v@ == l,
                None => r is None,
            }
        }),
{
    let n = s.unicode_len();
    if n < 2 {
        return None;
    }
    if s.get_char(0) != '[' {
        return None;
    }
    proof {
        assert(s@.drop_first() =~= s@.skip(1));
    }
    if n == 2 && s.get_char(1) == ']' {
        proof {
            assert(s@.skip(1).len() == 1);
            assert(s@.skip(1)[0] == s@[1]);
        }
        let empty: Vec<u32> = Vec::new();
        proof {
            assert(empty@ =~= Seq::<u32>::empty());
        }
        return Some(empty);
    }
    proof {
        assert(!(s@.skip(1).len() == 1 && s@.skip(1)[0] == ']')) by {
            if s@.skip(1).len() == 1 {
                assert(s@.skip(1)[0] == s@[1]);
            }
        }
    }
    let mut out: Vec<u32> = Vec::new();
    let mut i: usize = 1;
    proof {
        match list_items(s@.skip(1)) {
            Some(l) => {
                assert(out@ + l =~= l);
            },
            None => {},
        }
    }
    loop
        invariant
            1 <= i <= n,
            n == s@.len(),
            n >= 2,
            match list_items(s@.skip(i as int)) {
                Some(l) => list_parse(s@) == Some(out@ + l),
                None => list_parse(s@) is None,
            },
        decreases n - i,
    {
        let ghost suf = s@.skip(i as int);
        match parse_num(s, i) {
            None => {
                proof {
                    assert(list_items(suf) is None) by {
                        lemma_digit_run_le(suf);
                    }
                }
                return None;
            },
            Some((v, j)) => {
                proof {
                    lemma_digit_run_le(suf);
                    assert(digit_run(suf) > 0);
                    assert(j <= n);
                    assert(suf.skip(digit_run(suf) as int) =~= s@.skip(j as int));
                }
                if j >= n {
                    proof {
                        assert(s@.skip(j as int).len() == 0);
                        assert(list_items(suf) is None);
                    }
                    return None;
                }
                let c = s.get_char(j);
                proof {
                    assert(s@.skip(j as int)[0] == s@[j as int]);
                }
                if c == ']' {
                    if j + 1 == n {
                        let ghost out0 = out@;
                        out.push(v);
                        proof {
                            assert(s@.skip(j as int).len() == 1);
                            assert(list_items(suf) == Some(seq![v]));
                            assert(out@ =~= out0 + seq![v]);
                        }
                        return Some(out);
                    } else {
                        proof {
                            assert(s@.skip(j as int).len() > 1);
                            assert(list_items(suf) is None);
                        }
                        return None;
                    }
                } else if c == ',' {
                    let ghost out0 = out@;
                    out.push(v);
                    proof {
                        assert(s@.skip(j as int).len() >= 1);
                        assert(s@.skip(j as int).drop_first() =~= s@.skip(j + 1));
                        match list_items(s@.skip(j + 1)) {
                            Some(vs) => {
                                assert(list_items(suf) == Some(seq![v] + vs));
                                assert(out@ + vs =~= out0 + (seq![v] + vs));
                            },
                            None => {
                                assert(list_items(suf) is None);
                            },
                        }
                    }
                    i = j + 1;
                } else {
                    proof {
                        assert(list_items(suf) is None);
                    }
                    return None;
                }
            },
        }
    }
}

// ---------------------------------------------------------------------------
// Round trip
// ---------------------------------------------------------------------------
/// The value of a digit character.
proof fn lemma_digit_char_val(d: int)
    requires
        0 <= d < 10,
    ensures
        digit_char(d) as u32 == 48 + d,
        is_digit(digit_char(d)),
{
}

/// Canonical numerals consist of digits and are never empty.
proof fn lemma_dec_digits(n: nat)
    ensures
        dec_u64(n).len() >= 1,
        forall|i: int| 0 <= i < dec_u64(n).len() ==> is_digit(#[trigger] dec_u64(n)[i]),
    decreases n,
{
    if n < 10 {
        lemma_digit_char_val(n as int);
    } else {
        lemma_dec_digits(n / 10);
        lemma_digit_char_val((n % 10) as int);
    }
}

/// Parsing a canonical numeral gives back the number.
proof fn lemma_digits_value_dec(n: nat)
    ensures
        digits_value(dec_u64(n)) == n,
    decreases n,
{
    if n < 10 {
        lemma_digit_char_val(n as int);
        assert(dec_u64(n) == seq![digit_char(n as int)]);
        assert(dec_u64(n).drop_last() =~= Seq::<char>::empty());
        assert(dec_u64(n).last() == digit_char(n as int));
        assert(digits_value(Seq::<char>::empty()) == 0);
        assert(digit_val(digit_char(n as int)) == n);
        assert(digits_value(dec_u64(n)) == 0 * 10 + n);
    } else {
        lemma_digits_value_dec(n / 10);
        lemma_digit_char_val((n % 10) as int);
        assert(dec_u64(n) == dec_u64(n / 10).push(digit_char((n % 10) as int)));
        assert(dec_u64(n).drop_last() =~= dec_u64(n / 10));
        assert(dec_u64(n).last() == digit_char((n % 10) as int));
        assert(digit_val(digit_char((n % 10) as int)) == n % 10);
        assert(digits_value(dec_u64(n)) == digits_value(dec_u64(n / 10)) * 10 + n % 10);
        assert((n / 10) * 10 + n % 10 == n);
    }
}

/// Scanning the escaped form of a body, followed by the closing quote and a
/// suffix, yields the body and that suffix.
proof fn lemma_scan_esc(content: Seq<char>, rest: Seq<char>)
    ensures
        scan_string(esc(content) + seq!['"'] + rest) == Some((content, rest)),
    decreases content.len(),
{
    let s = esc(content) + seq!['"'] + rest;
    if content.len() == 0 {
        assert(esc(content) =~= Seq::<char>::empty());
        assert(s =~= seq!['"'] + rest);
        assert(s[0] == '"');
        assert(s.drop_first() =~= rest);
        assert(content =~= Seq::<char>::empty());
    } else {
        let c = content[0];
        let tail = content.drop_first();
        lemma_scan_esc(tail, rest);
        let s_tail = esc(tail) + seq!['"'] + rest;
        if c == '"' || c == '\\' {
            assert(esc_char(c) =~= seq!['\\', c]);
            assert(s[0] == '\\');
            assert(s[1] == c);
            assert(s.len() >= 2);
            assert(s.subrange(2, s.len() as int) =~= s_tail);
            assert(scan_string(s) == Some((seq![c] + tail, rest)));
            assert(seq![c] + tail =~= content);
        } else {
            assert(esc_char(c) =~= seq![c]);
            assert(s[0] == c);
            assert(c != '"' && c != '\\');
            assert(s.drop_first() =~= s_tail);
            assert(scan_string(s) == Some((seq![c] + tail, rest)));
            assert(seq![c] + tail =~= content);
        }
    }
}

/// Round trip: every canonically encoded direct-message request parses back
/// to exactly the destination and content it was built from.
pub proof fn lemma_serverbound_round_trip(to: u32, content: Seq<char>)
    ensures
        sb_parse(serverbound_enc(to, content)) == Some((to, content)),
{
    let dec = dec_u64(to as nat);
    let s = serverbound_enc(to, content);
    let r1 = sb_mid() + (esc(content) + seq!['"'] + sb_suf());
    assert(s =~= sb_pre() + (dec + r1));
    // the opening literal
    assert(s.subrange(0, sb_pre().len() as int) =~= sb_pre());
    assert(starts_with(s, sb_pre()));
    let s1 = s.skip(sb_pre().len() as int);
    assert(s1 =~= dec + r1);
    // the numeral
    lemma_dec_digits(to as nat);
    assert(sb_mid().len() > 0 && !is_digit(sb_mid()[0])) by {
        reveal_strlit(",\"content\":\"");
    }
    assert(r1[0] == sb_mid()[0]);
    assert(forall|m: int| 0 <= m < dec.len() ==> is_digit(s1[m]));
    lemma_digit_run_characterize(s1, dec.len() as int);
    let k = digit_run(s1);
    assert(k == dec.len());
    assert(s1.take(k as int) =~= dec);
    lemma_digits_value_dec(to as nat);
    assert(digits_value(s1.take(k as int)) == to as nat);
    // the middle literal
    let s2 = s1.skip(k as int);
    assert(s2 =~= r1);
    assert(s2.subrange(0, sb_mid().len() as int) =~= sb_mid());
    assert(starts_with(s2, sb_mid()));
    // the content and the closing
    let s3 = s2.skip(sb_mid().len() as int);
    assert(s3 =~= esc(content) + seq!['"'] + sb_suf());
    lemma_scan_esc(content, sb_suf());
    assert(scan_string(s3) == Some((content, sb_suf())));
}

/// Encode a direct-message request canonically.
pub fn encode_serverbound(to: u32, content: &str) -> (r: String)
    ensures
        r@ == serverbound_enc(to, content@),
{
    let mut s = String::new();
    s.append("{\"NewUserMessage\":{\"to\":");
    push_dec_u64(&mut s, to as u64);
    s.append(",\"content\":\"");
    push_escaped(&mut s, content);
    push_char(&mut s, '"');
    s.append("}}");
    proof {
        assert(s@ =~= serverbound_enc(to, content@));
    }
    s
}

// ---------------------------------------------------------------------------
// Server-to-client encoding
// ---------------------------------------------------------------------------
/// Canonical encoding of one persisted message.
pub open spec fn pum_enc(m: PublicUserMessage) -> Seq<char> {
    "{\"umid\":"@ + dec_u64(m.umid.0 as nat) + ",\"from\":"@ + dec_u64(m.from.0 as nat)
        + ",\"to\":"@ + dec_u64(m.to.0 as nat) + ",\"time_posted\":"@ + dec_u64(
        m.time_posted as nat,
    ) + ",\"content\":\""@ + esc(m.content.0@) + "\"}"@
}

/// Encoding of the tail of a message list: every element with a leading
/// comma.
pub open spec fn rest_enc(v: Seq<PublicUserMessage>) -> Seq<char>
    decreases v.len(),
{
    if v.len() == 0 {
        Seq::<char>::empty()
    } else {
        seq![','] + pum_enc(v[0]) + rest_enc(v.drop_first())
    }
}

/// Comma-separated encoding of a message list.
pub open spec fn pum_list_enc(v: Seq<PublicUserMessage>) -> Seq<char> {
    if v.len() == 0 {
        Seq::<char>::empty()
    } else {
        pum_enc(v[0]) + rest_enc(v.drop_first())
    }
}

/// Canonical encoding of a client-bound payload.
pub open spec fn clientbound_enc(p: WsClientboundPayload) -> Seq<char> {
    match p {
        WsClientboundPayload::NewMessage(m) => "{\"NewMessage\":"@ + pum_enc(m) + "}"@,
        WsClientboundPayload::NewMessages(v) => "{\"NewMessages\":["@ + pum_list_enc(v@) + "]}"@,
        WsClientboundPayload::MessageSent(u) => "{\"MessageSent\":"@ + dec_u64(u.0 as nat) + "}"@,
    }
}

/// Append the canonical encoding of one persisted message.
fn push_pum(s: &mut String, m: &PublicUserMessage)
    ensures
        final(s)@ == old(s)@ + pum_enc(*m),
{
    s.append("{\"umid\":");
    push_dec_u64(s, m.umid.0);
    s.append(",\"from\":");
    push_dec_u64(s, m.from.0 as u64);
    s.append(",\"to\":");
    push_dec_u64(s, m.to.0 as u64);
    s.append(",\"time_posted\":");
    push_dec_u64(s, m.time_posted);
    s.append(",\"content\":\"");
    push_escaped(s, m.content.0.as_str());
    s.append("\"}");
    proof {
        assert(s@ =~= old(s)@ + pum_enc(*m));
    }
}

/// The tail encoding distributes over concatenation.
proof fn lemma_rest_enc_append(a: Seq<PublicUserMessage>, b: Seq<PublicUserMessage>)
    ensures
        rest_enc(a + b) == rest_enc(a) + rest_enc(b),
    decreases a.len(),
{
    if a.len() == 0 {
        assert(a + b =~= b);
        assert(rest_enc(a) =~= Seq::<char>::empty());
        assert(rest_enc(a) + rest_enc(b) =~= rest_enc(b));
    } else {
        assert((a + b).drop_first() =~= a.drop_first() + b);
        lemma_rest_enc_append(a.drop_first(), b);
        assert(rest_enc(a + b) == seq![','] + pum_enc(a[0]) + (rest_enc(a.drop_first()) + rest_enc(
            b,
        )));
        assert(seq![','] + pum_enc(a[0]) + (rest_enc(a.drop_first()) + rest_enc(b)) =~= (seq![',']
            + pum_enc(a[0]) + rest_enc(a.drop_first())) + rest_enc(b));
    }
}

/// Encode a client-bound payload canonically.
pub fn encode_clientbound(p: &WsClientboundPayload) -> (r: String)
    ensures
        r@ == clientbound_enc(*p),
{
    let mut s = String::new();
    match p {
        WsClientboundPayload::NewMessage(m) => {
            s.append("{\"NewMessage\":");
            push_pum(&mut s, m);
            s.append("}");
        },
        WsClientboundPayload::NewMessages(v) => {
            s.append("{\"NewMessages\":[");
            if v.len() > 0 {
                push_pum(&mut s, &v[0]);
                let ghost head = "{\"NewMessages\":["@ + pum_enc(v@[0]);
                let mut i: usize = 1;
                proof {
                    assert(v@.subrange(1, 1) =~= Seq::<PublicUserMessage>::empty());
                    assert(rest_enc(v@.subrange(1, 1)) =~= Seq::<char>::empty());
                    assert(s@ =~= head + rest_enc(v@.subrange(1, 1)));
                }
                while i < v.len()
                    invariant
                        1 <= i <= v@.len(),
                        s@ == head + rest_enc(v@.subrange(1, i as int)),
                        head == "{\"NewMessages\":["@ + pum_enc(v@[0]),
                    decreases v@.len() - i,
                {
                    s.append(",");
                    push_pum(&mut s, &v[i]);
                    proof {
                        let one = seq![v@[i as int]];
                        assert(v@.subrange(1, i + 1) =~= v@.subrange(1, i as int) + one);
                        lemma_rest_enc_append(v@.subrange(1, i as int), one);
                        assert(one.drop_first() =~= Seq::<PublicUserMessage>::empty());
                        assert(rest_enc(Seq::<PublicUserMessage>::empty())
                            =~= Seq::<char>::empty());
                        assert(rest_enc(one) =~= (seq![','] + pum_enc(v@[i as int]))
                            + Seq::<char>::empty());
                        assert(rest_enc(one) =~= seq![','] + pum_enc(v@[i as int]));
                        assert(","@ =~= seq![',']) by {
                            reveal_strlit(",");
                        }
                        assert(s@ =~= head + rest_enc(v@.subrange(1, i + 1)));
                    }
                    i = i + 1;
                }
                proof {
                    assert(v@.subrange(1, v@.len() as int) =~= v@.drop_first());
                }
            }
            s.append("]}");
        },
        WsClientboundPayload::MessageSent(u) => {
            s.append("{\"MessageSent\":");
            push_dec_u64(&mut s, u.0);
            s.append("}");
        },
    }
    proof {
        assert(s@ =~= clientbound_enc(*p));
    }
    s
}

} // verus!
