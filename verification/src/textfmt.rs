//! Verified text rendering: decimal numbers, dotted-quad addresses,
//! and the per-subnet report line.

use crate::agg::HostAggregator;
use crate::subnet::Ipv4Subnet;
use crate::subnet::hosts_from_prefix_v4;
use vstd::prelude::*;
use vstd::string::StrSliceExecFns;
use vstd::string::StringExecFns;

verus! {

/// The decimal digit character for `d`, 0 through 9.
pub open spec fn spec_digit(d: int) -> char {
    if d == 0 {
        '0'
    } else if d == 1 {
        '1'
    } else if d == 2 {
        '2'
    } else if d == 3 {
        '3'
    } else if d == 4 {
        '4'
    } else if d == 5 {
        '5'
    } else if d == 6 {
        '6'
    } else if d == 7 {
        '7'
    } else if d == 8 {
        '8'
    } else {
        '9'
    }
}

/// Decimal rendering of a nonnegative integer, most significant digit
/// first, no leading zeros.
pub open spec fn spec_dec(n: int) -> Seq<char>
    decreases n,
{
    if n < 10 {
        seq![spec_digit(n)]
    } else {
        spec_dec(n / 10) + seq![spec_digit(n % 10)]
    }
}

/// The one-character string for a decimal digit.
fn digit_str(d: u64) -> (r: &'static str)
    requires
        d < 10,
    ensures
        r@ == seq![spec_digit(d as int)],
{
    let r: &'static str = if d == 0 {
        "0"
    } else if d == 1 {
        "1"
    } else if d == 2 {
        "2"
    } else if d == 3 {
        "3"
    } else if d == 4 {
        "4"
    } else if d == 5 {
        "5"
    } else if d == 6 {
        "6"
    } else if d == 7 {
        "7"
    } else if d == 8 {
        "8"
    } else {
        "9"
    };
    proof {
        reveal_strlit("0");
        reveal_strlit("1");
        reveal_strlit("2");
        reveal_strlit("3");
        reveal_strlit("4");
        reveal_strlit("5");
        reveal_strlit("6");
        reveal_strlit("7");
        reveal_strlit("8");
        reveal_strlit("9");
        assert(r@ =~= seq![spec_digit(d as int)]);
    }
    r
}

/// Appends the decimal rendering of `n`.
pub fn push_dec(out: &mut String, n: u64)
    ensures
        final(out)@ == old(out)@ + spec_dec(n as int),
    decreases n,
{
    if n < 10 {
        out.append(digit_str(n));
    } else {
        push_dec(out, n / 10);
        out.append(digit_str(n % 10));
        proof {
            assert(out@ =~= old(out)@ + spec_dec(n as int));
        }
    }
}

/// Dotted-quad rendering of an IPv4 address held as a `u32` in network
/// order.
pub open spec fn spec_ipv4(a: int) -> Seq<char> {
    spec_dec(a / 0x100_0000 % 256) + seq!['.'] + spec_dec(a / 0x1_0000 % 256) + seq!['.']
        + spec_dec(a / 0x100 % 256) + seq!['.'] + spec_dec(a % 256)
}

/// Appends the dotted-quad rendering of an address.
pub fn push_ipv4(out: &mut String, a: u32)
    ensures
        final(out)@ == old(out)@ + spec_ipv4(a as int),
{
    proof {
        reveal_strlit(".");
    }
    push_dec(out, (a / 0x100_0000 % 256) as u64);
    out.append(".");
    push_dec(out, (a / 0x1_0000 % 256) as u64);
    out.append(".");
    push_dec(out, (a / 0x100 % 256) as u64);
    out.append(".");
    push_dec(out, (a % 256) as u64);
    proof {
        assert(out@ =~= old(out)@ + spec_ipv4(a as int));
    }
}

/// The tail of a comma-separated address list, from index `i` on: each
/// element preceded by a comma and a space.
pub open spec fn spec_addr_rest(v: Seq<u32>, i: int) -> Seq<char>
    decreases v.len() - i,
{
    if 0 <= i < v.len() {
        seq![',', ' '] + spec_ipv4(v[i] as int) + spec_addr_rest(v, i + 1)
    } else {
        Seq::empty()
    }
}

/// A comma-separated list of dotted-quad addresses.
pub open spec fn spec_addr_list(v: Seq<u32>) -> Seq<char> {
    if v.len() == 0 {
        Seq::empty()
    } else {
        spec_ipv4(v[0] as int) + spec_addr_rest(v, 1)
    }
}

fn push_addr_rest(out: &mut String, v: &Vec<u32>, i: usize)
    ensures
        final(out)@ == old(out)@ + spec_addr_rest(v@, i as int),
    decreases v@.len() - i,
{
    if i < v.len() {
        proof {
            reveal_strlit(", ");
        }
        out.append(", ");
        push_ipv4(out, v[i]);
        push_addr_rest(out, v, i + 1);
        proof {
            assert(", "@ =~= seq![',', ' ']);
            assert(out@ =~= old(out)@ + spec_addr_rest(v@, i as int));
        }
    }
}

/// The report line for one swept subnet: the subnet, its usable-host
/// count, how many hosts are online, and the online addresses in
/// ascending order.
pub open spec fn spec_report_line(s: Ipv4Subnet, online: Seq<u32>) -> Seq<char> {
    spec_ipv4(s.addr as int) + seq!['/'] + spec_dec(s.prefix_len as int) + " with "@ + spec_dec(
        s.spec_usable(),
    ) + " hosts, "@ + spec_dec(online.len() as int) + " are online: {"@ + spec_addr_list(online)
        + seq!['}']
}

/// Renders the report line for one swept subnet from its aggregated
/// online set.
pub fn report_line_for(s: &Ipv4Subnet, agg: &HostAggregator) -> (r: String)
    requires
        s.wf(),
        agg.wf(),
    ensures
        r@ == spec_report_line(*s, agg.online@),
{
    proof {
        reveal_strlit("/");
        reveal_strlit("}");
    }
    let mut out = String::new();
    push_ipv4(&mut out, s.addr);
    out.append("/");
    push_dec(&mut out, s.prefix_len as u64);
    out.append(" with ");
    let usable = hosts_from_prefix_v4(s.prefix_len);
    push_dec(&mut out, usable as u64);
    out.append(" hosts, ");
    push_dec(&mut out, agg.online.len() as u64);
    out.append(" are online: {");
    if agg.online.len() > 0 {
        push_ipv4(&mut out, agg.online[0]);
        push_addr_rest(&mut out, &agg.online, 1);
    }
    out.append("}");
    proof {
        assert("/"@ =~= seq!['/']);
        assert("}"@ =~= seq!['}']);
        assert(out@ =~= spec_report_line(*s, agg.online@));
    }
    out
}

/// Whitespace as line trimming understands it: the ASCII whitespace
/// characters.
pub open spec fn spec_is_ws(c: char) -> bool {
    c == ' ' || c == '\t' || c == '\n' || c == '\r' || c == '\u{b}' || c == '\u{c}'
}

fn is_ws(c: char) -> (r: bool)
    ensures
        r == spec_is_ws(c),
{
    c == ' ' || c == '\t' || c == '\n' || c == '\r' || c == '\u{b}' || c == '\u{c}'
}

/// The sequence with leading whitespace removed.
pub open spec fn spec_trim_left(s: Seq<char>) -> Seq<char>
    decreases s.len(),
{
    if s.len() > 0 && spec_is_ws(s[0]) {
        spec_trim_left(s.drop_first())
    } else {
        s
    }
}

/// The sequence with trailing whitespace removed.
pub open spec fn spec_trim_right(s: Seq<char>) -> Seq<char>
    decreases s.len(),
{
    if s.len() > 0 && spec_is_ws(s.last()) {
        spec_trim_right(s.drop_last())
    } else {
        s
    }
}

/// The sequence with whitespace removed from both ends.
pub open spec fn spec_trim(s: Seq<char>) -> Seq<char> {
    spec_trim_right(spec_trim_left(s))
}

/// Index of the first newline, or the length when there is none.
pub open spec fn spec_first_nl(s: Seq<char>) -> nat
    decreases s.len(),
{
    if s.len() == 0 {
        0
    } else if s[0] == '\n' {
        0
    } else {
        1 + spec_first_nl(s.drop_first())
    }
}

/// Each newline-separated line trimmed and followed by one space, all
/// concatenated.
pub open spec fn spec_joined_lines(s: Seq<char>) -> Seq<char>
    decreases s.len(),
{
    if s.len() == 0 {
        Seq::empty()
    } else {
        let j = spec_first_nl(s) as int;
        if j >= s.len() {
            spec_trim(s) + " "@
        } else {
            spec_trim(s.take(j)) + " "@ + spec_joined_lines(s.skip(j + 1))
        }
    }
}

/// A multi-line text flattened to one line: every line trimmed and
/// joined by single spaces, the whole trimmed again.
pub open spec fn spec_one_line(s: Seq<char>) -> Seq<char> {
    spec_trim(spec_joined_lines(s))
}

/// A forward whitespace scan that stopped at `a` finds where trimming
/// from the left ends.
proof fn lemma_trim_left_scan(s: Seq<char>, a: int)
    requires
        0 <= a <= s.len(),
        forall|m: int| 0 <= m < a ==> spec_is_ws(s[m]),
        a == s.len() || !spec_is_ws(s[a]),
    ensures
        spec_trim_left(s) == s.skip(a),
    decreases a,
{
    if a == 0 {
        assert(s.skip(0) =~= s);
    } else {
        let t = s.drop_first();
        lemma_trim_left_scan(t, a - 1);
        assert(t.skip(a - 1) =~= s.skip(a));
    }
}

/// A backward whitespace scan that stopped at `b` finds where trimming
/// from the right ends.
proof fn lemma_trim_right_scan(s: Seq<char>, b: int)
    requires
        0 <= b <= s.len(),
        forall|m: int| b <= m < s.len() ==> spec_is_ws(s[m]),
        b == 0 || !spec_is_ws(s[b - 1]),
    ensures
        spec_trim_right(s) == s.take(b),
    decreases s.len() - b,
{
    if b == s.len() {
        assert(s.take(b) =~= s);
    } else {
        let t = s.drop_last();
        assert(spec_is_ws(s.last()));
        lemma_trim_right_scan(t, b);
        assert(t.take(b) =~= s.take(b));
    }
}

/// Trims ASCII whitespace from both ends of a string.
pub fn trim_str(s: &str) -> (r: String)
    ensures
        r@ == spec_trim(s@),
{
    let n = s.unicode_len();
    let mut a: usize = 0;
    while a < n && is_ws(s.get_char(a))
        invariant
            0 <= a <= n,
            n == s@.len(),
            forall|m: int| 0 <= m < a ==> spec_is_ws(s@[m]),
        decreases n - a,
    {
        a = a + 1;
    }
    let mut b: usize = n;
    while b > a && is_ws(s.get_char(b - 1))
        invariant
            a <= b <= n,
            n == s@.len(),
            forall|m: int| 0 <= m < a ==> spec_is_ws(s@[m]),
            forall|m: int| b <= m < n ==> spec_is_ws(s@[m]),
        decreases b,
    {
        b = b - 1;
    }
    proof {
        lemma_trim_left_scan(s@, a as int);
        let t = s@.skip(a as int);
        lemma_trim_right_scan(t, b - a);
        assert(t.take(b - a) =~= s@.subrange(a as int, b as int));
    }
    let sub = s.substring_char(a, b);
    String::from_str(sub)
}

/// A forward scan that stopped at the first newline (or the end) finds
/// the first-newline index.
proof fn lemma_first_nl_scan(s: Seq<char>, k: int)
    requires
        0 <= k <= s.len(),
        forall|m: int| 0 <= m < k ==> s[m] != '\n',
        k == s.len() || s[k] == '\n',
    ensures
        spec_first_nl(s) == k,
    decreases k,
{
    if k == 0 {
    } else {
        let t = s.drop_first();
        lemma_first_nl_scan(t, k - 1);
    }
}

/// Index of the first newline in a string, or its length.
fn find_nl(s: &str) -> (j: usize)
    ensures
        j == spec_first_nl(s@),
        j <= s@.len(),
{
    let n = s.unicode_len();
    let mut j: usize = 0;
    while j < n && s.get_char(j) != '\n'
        invariant
            0 <= j <= n,
            n == s@.len(),
            forall|m: int| 0 <= m < j ==> s@[m] != '\n',
        decreases n - j,
    {
        j = j + 1;
    }
    proof {
        lemma_first_nl_scan(s@, j as int);
    }
    j
}

/// Trims every newline-separated line and joins them with single
/// trailing spaces.
fn joined_lines(s: &str) -> (r: String)
    ensures
        r@ == spec_joined_lines(s@),
    decreases s@.len(),
{
    let n = s.unicode_len();
    if n == 0 {
        String::new()
    } else {
        let j = find_nl(s);
        let line = s.substring_char(0, j);
        let mut out = trim_str(line);
        out.append(" ");
        if j < n {
            let rest = s.substring_char(j + 1, n);
            let tail = joined_lines(rest);
            out.append(tail.as_str());
            proof {
                assert(s@.take(j as int) =~= s@.subrange(0, j as int));
                assert(s@.skip(j as int + 1) =~= s@.subrange(j as int + 1, n as int));
                assert(out@ =~= spec_joined_lines(s@));
            }
        } else {
            proof {
                assert(s@.subrange(0, n as int) =~= s@);
                assert(out@ =~= spec_joined_lines(s@));
            }
        }
        out
    }
}

/// Flattens a multi-line text to one line: every line is trimmed of
/// ASCII whitespace and the pieces are joined by single spaces.
pub fn multiline_to_one_line(lines: String) -> (r: String)
    ensures
        r@ == spec_one_line(lines@),
{
    let mid = joined_lines(lines.as_str());
    trim_str(mid.as_str())
}

} // verus!
