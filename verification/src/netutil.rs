//! Local-network addresses: which IPv4 addresses count as usable, how the
//! output of `ip -4 -br addr show` is read, and the base URLs offered.

use vstd::prelude::*;
use crate::text::{chars_of, contains_chars, decimal, decimal_string, has_infix, is_white_space, owned, white_space};

verus! {

broadcast use vstd::string::group_string_axioms;

/// An IPv4 address as its four octets.
#[derive(PartialEq, Eq, Structural, Clone, Copy, Debug)]
pub struct Ipv4Octets(pub u8, pub u8, pub u8, pub u8);

/// `127.0.0.0/8` (`Ipv4Addr::is_loopback`).
pub open spec fn loopback(ip: Ipv4Octets) -> bool {
    ip.0 == 127
}

/// `0.0.0.0` (`Ipv4Addr::is_unspecified`).
pub open spec fn unspecified(ip: Ipv4Octets) -> bool {
    ip.0 == 0 && ip.1 == 0 && ip.2 == 0 && ip.3 == 0
}

/// `169.254.0.0/16` (`Ipv4Addr::is_link_local`).
pub open spec fn link_local(ip: Ipv4Octets) -> bool {
    ip.0 == 169 && ip.1 == 254
}

/// `224.0.0.0/4` (`Ipv4Addr::is_multicast`).
pub open spec fn multicast(ip: Ipv4Octets) -> bool {
    224 <= ip.0 <= 239
}

/// `10.0.0.0/8`, `172.16.0.0/12` and `192.168.0.0/16` (`Ipv4Addr::is_private`).
pub open spec fn private(ip: Ipv4Octets) -> bool {
    ip.0 == 10 || (ip.0 == 172 && 16 <= ip.1 <= 31) || (ip.0 == 192 && ip.1 == 168)
}

/// `198.18.0.0/15`, where proxy tunnels (Clash, Mihomo) put their interfaces.
pub open spec fn proxy_tunnel(ip: Ipv4Octets) -> bool {
    ip.0 == 198 && (ip.1 == 18 || ip.1 == 19)
}

/// An address other devices on the local network can reach: a private
/// address that is not loopback, unspecified, link-local, multicast or a
/// proxy tunnel.
pub open spec fn usable_lan(ip: Ipv4Octets) -> bool {
    !loopback(ip) && !unspecified(ip) && !link_local(ip) && !multicast(ip) && !proxy_tunnel(ip)
        && private(ip)
}

/// Whether other devices on the local network can reach `ip`.
pub fn is_usable_lan_v4(ip: Ipv4Octets) -> (r: bool)
    ensures
        r == usable_lan(ip),
{
    let Ipv4Octets(a, b, c, d) = ip;
    if a == 127 || (a == 0 && b == 0 && c == 0 && d == 0) || (a == 169 && b == 254) || (224 <= a
        && a <= 239) {
        return false;
    }
    if a == 198 && (b == 18 || b == 19) {
        return false;
    }
    a == 10 || (a == 172 && 16 <= b && b <= 31) || (a == 192 && b == 168)
}

// ---------------------------------------------------------------------------
// Splitting text
// ---------------------------------------------------------------------------

/// The parts of `s` between occurrences of `sep`, as `str::split` gives
/// them (always at least one part).
pub open spec fn split_on(s: Seq<char>, sep: char) -> Seq<Seq<char>>
    decreases s.len(),
{
    if s.len() == 0 {
        seq![seq![]]
    } else {
        let p = split_on(s.drop_last(), sep);
        if s.last() == sep {
            p.push(seq![])
        } else {
            p.update(p.len() - 1, p.last().push(s.last()))
        }
    }
}

proof fn lemma_split_on_nonempty(s: Seq<char>, sep: char)
    ensures
        split_on(s, sep).len() >= 1,
    decreases s.len(),
{
    if s.len() > 0 {
        lemma_split_on_nonempty(s.drop_last(), sep);
    }
}

/// The views of a vector of character vectors.
pub open spec fn views(v: Seq<Vec<char>>) -> Seq<Seq<char>> {
    v.map_values(|x: Vec<char>| x@)
}

/// The parts of `s` between occurrences of `sep`.
pub fn split_chars(s: &[char], sep: char) -> (r: Vec<Vec<char>>)
    ensures
        views(r@) == split_on(s@, sep),
        r@.len() >= 1,
{
    let mut done: Vec<Vec<char>> = Vec::new();
    let mut cur: Vec<char> = Vec::new();
    let mut i: usize = 0;
    assert(s@.take(0) =~= Seq::<char>::empty());
    while i < s.len()
        invariant
            i <= s.len(),
            split_on(s@.take(i as int), sep) == views(done@).push(cur@),
        decreases s.len() - i,
    {
        let c = s[i];
        let ghost t = s@.take(i + 1);
        assert(t.drop_last() =~= s@.take(i as int));
        if c == sep {
            let finished = cur;
            done.push(finished);
            cur = Vec::new();
            assert(views(done@).push(cur@) =~= split_on(t, sep));
        } else {
            cur.push(c);
            assert(views(done@).push(cur@) =~= split_on(t, sep));
        }
        i = i + 1;
    }
    assert(s@.take(s@.len() as int) =~= s@);
    done.push(cur);
    assert(views(done@) =~= split_on(s@, sep));
    done
}

/// `s` without one final `'\r'`, if it ends with one.
pub open spec fn strip_cr(s: Seq<char>) -> Seq<char> {
    if s.len() > 0 && s.last() == '\r' {
        s.drop_last()
    } else {
        s
    }
}

/// The lines of `s`, as `str::lines` gives them: split at `'\n'`, a
/// `'\r'` right before a `'\n'` removed, and no line after a final `'\n'`.
pub open spec fn text_lines(s: Seq<char>) -> Seq<Seq<char>> {
    let parts = split_on(s, '\n');
    let n = if parts.last().len() == 0 {
        parts.len() - 1
    } else {
        parts.len() as int
    };
    Seq::new(
        n as nat,
        |i: int|
            if i < parts.len() - 1 {
                strip_cr(parts[i])
            } else {
                parts[i]
            },
    )
}

/// The lines of `s` (`str::lines`).
pub fn lines_of(s: &[char]) -> (r: Vec<Vec<char>>)
    ensures
        views(r@) == text_lines(s@),
{
    let parts = split_chars(s, '\n');
    let ghost pv = views(parts@);
    let last = parts.len() - 1;
    let n = if parts[last].len() == 0 {
        last
    } else {
        parts.len()
    };
    let mut out: Vec<Vec<char>> = Vec::new();
    let mut i: usize = 0;
    while i < n
        invariant
            pv == views(parts@),
            pv == split_on(s@, '\n'),
            last + 1 == parts@.len(),
            n <= parts@.len(),
            n == (if pv.last().len() == 0 {
                pv.len() - 1
            } else {
                pv.len() as int
            }),
            i <= n,
            views(out@) =~= text_lines(s@).take(i as int),
        decreases n - i,
    {
        let p = &parts[i];
        let mut line: Vec<char> = Vec::new();
        let keep = if i < last && p.len() > 0 && p[p.len() - 1] == '\r' {
            p.len() - 1
        } else {
            p.len()
        };
        let mut j: usize = 0;
        while j < keep
            invariant
                keep <= p@.len(),
                j <= keep,
                line@ == p@.take(j as int),
            decreases keep - j,
        {
            line.push(p[j]);
            assert(p@.take(j as int).push(p@[j as int]) =~= p@.take(j + 1));
            j = j + 1;
        }
        assert(pv[i as int] == p@);
        assert(line@ =~= text_lines(s@)[i as int]);
        let ghost before = out@;
        out.push(line);
        assert(views(out@) =~= views(before).push(text_lines(s@)[i as int]));
        assert(text_lines(s@).take(i + 1) =~= text_lines(s@).take(i as int).push(
            text_lines(s@)[i as int],
        ));
        i = i + 1;
    }
    assert(text_lines(s@).take(n as int) =~= text_lines(s@));
    out
}

/// The words of `s`, as `str::split_whitespace` gives them: the maximal
/// runs of characters that are not white space.
pub open spec fn words(s: Seq<char>) -> Seq<Seq<char>>
    decreases s.len(),
{
    if s.len() == 0 {
        seq![]
    } else if white_space(s.last()) {
        words(s.drop_last())
    } else {
        let w = words(s.drop_last());
        if s.len() >= 2 && !white_space(s[s.len() - 2]) {
            w.update(w.len() - 1, w.last().push(s.last()))
        } else {
            w.push(seq![s.last()])
        }
    }
}

/// The words of `s` (`str::split_whitespace`).
pub fn words_of(s: &[char]) -> (r: Vec<Vec<char>>)
    ensures
        views(r@) == words(s@),
{
    let mut done: Vec<Vec<char>> = Vec::new();
    let mut cur: Vec<char> = Vec::new();
    let mut i: usize = 0;
    assert(s@.take(0) =~= Seq::<char>::empty());
    while i < s.len()
        invariant
            i <= s.len(),
            cur@.len() > 0 <==> (i > 0 && !white_space(s@[i - 1])),
            words(s@.take(i as int)) == if cur@.len() > 0 {
                views(done@).push(cur@)
            } else {
                views(done@)
            },
        decreases s.len() - i,
    {
        let c = s[i];
        let ghost t = s@.take(i + 1);
        assert(t.drop_last() =~= s@.take(i as int));
        if is_white_space(c) {
            if cur.len() > 0 {
                let finished = cur;
                done.push(finished);
                cur = Vec::new();
            }
            assert(words(t) =~= views(done@));
        } else {
            let ghost w = words(t.drop_last());
            let ghost old_cur = cur@;
            if cur.len() > 0 {
                assert(t[t.len() - 2] == s@[i - 1]);
                assert(w == views(done@).push(old_cur));
                assert(words(t) == w.update(w.len() - 1, w.last().push(c)));
            } else {
                assert(w == views(done@));
                assert(words(t) == w.push(seq![c]));
            }
            cur.push(c);
            assert(cur@ =~= old_cur.push(c));
            assert(old_cur.len() == 0 ==> cur@ =~= seq![c]);
            assert(words(t) =~= views(done@).push(cur@));
        }
        i = i + 1;
    }
    assert(s@.take(s@.len() as int) =~= s@);
    if cur.len() > 0 {
        done.push(cur);
    }
    assert(views(done@) =~= words(s@));
    done
}

/// The ASCII lower-case form of `c` (`char::to_ascii_lowercase`).
pub open spec fn ascii_lower_char(c: char) -> char {
    if 'A' <= c <= 'Z' {
        ((c as int) + 32) as char
    } else {
        c
    }
}

/// The ASCII lower-case form of `s` (`str::to_ascii_lowercase`).
pub open spec fn ascii_lower(s: Seq<char>) -> Seq<char> {
    s.map_values(|c: char| ascii_lower_char(c))
}

/// The lower-case Latin letters, indexed by their place in the alphabet.
const LOWER_CASE: [char; 26] = [
    'a', 'b', 'c', 'd', 'e', 'f', 'g', 'h', 'i', 'j', 'k', 'l', 'm', 'n', 'o', 'p', 'q', 'r',
    's', 't', 'u', 'v', 'w', 'x', 'y', 'z',
];

/// The ASCII lower-case form of `s`.
pub fn ascii_lower_of(s: &[char]) -> (r: Vec<char>)
    ensures
        r@ == ascii_lower(s@),
{
    let mut out: Vec<char> = Vec::new();
    let mut i: usize = 0;
    while i < s.len()
        invariant
            i <= s.len(),
            out@ =~= ascii_lower(s@.take(i as int)),
        decreases s.len() - i,
    {
        let c = s[i];
        let lc = if 'A' <= c && c <= 'Z' {
            let k = (c as u32 - 'A' as u32) as usize;
            let l = LOWER_CASE[k];
            assert(l == ascii_lower_char(c)) by {
                assert(LOWER_CASE@[k as int] == ((k + 'a' as int) as char));
            }
            l
        } else {
            c
        };
        out.push(lc);
        assert(ascii_lower(s@.take(i + 1)) =~= ascii_lower(s@.take(i as int)).push(lc));
        i = i + 1;
    }
    assert(s@.take(s@.len() as int) =~= s@);
    out
}

} // verus!

verus! {

// ---------------------------------------------------------------------------
// Reading IPv4 addresses
// ---------------------------------------------------------------------------

/// An ASCII decimal digit.
pub open spec fn ascii_digit(c: char) -> bool {
    '0' <= c <= '9'
}

/// The value of a run of decimal digits.
pub open spec fn digits_value(s: Seq<char>) -> nat
    decreases s.len(),
{
    if s.len() == 0 {
        0
    } else {
        digits_value(s.drop_last()) * 10 + (s.last() as int - '0' as int) as nat
    }
}

/// One octet of a dotted-decimal address as `Ipv4Addr::from_str` accepts
/// it: one to three digits, no leading zero before further digits, at most 255.
pub open spec fn octet_text(p: Seq<char>) -> bool {
    &&& 1 <= p.len() <= 3
    &&& forall|i: int| 0 <= i < p.len() ==> ascii_digit(#[trigger] p[i])
    &&& (p.len() > 1 ==> p[0] != '0')
    &&& digits_value(p) <= 255
}

/// The address `s` spells in dotted-decimal notation, as
/// `Ipv4Addr::from_str` reads it: exactly four octets separated by dots.
pub open spec fn parse_ipv4(s: Seq<char>) -> Option<Ipv4Octets> {
    let parts = split_on(s, '.');
    if parts.len() == 4 && octet_text(parts[0]) && octet_text(parts[1]) && octet_text(parts[2])
        && octet_text(parts[3]) {
        Some(
            Ipv4Octets(
                digits_value(parts[0]) as u8,
                digits_value(parts[1]) as u8,
                digits_value(parts[2]) as u8,
                digits_value(parts[3]) as u8,
            ),
        )
    } else {
        None
    }
}

/// The octet `p` spells, if it is one.
fn octet_of(p: &[char]) -> (r: Option<u8>)
    ensures
        r == (if octet_text(p@) {
            Some(digits_value(p@) as u8)
        } else {
            None::<u8>
        }),
{
    if p.len() < 1 || p.len() > 3 {
        return None;
    }
    if p.len() > 1 && p[0] == '0' {
        return None;
    }
    let mut v: u32 = 0;
    let mut i: usize = 0;
    assert(p@.take(0) =~= Seq::<char>::empty());
    while i < p.len()
        invariant
            1 <= p@.len() <= 3,
            i <= p@.len(),
            forall|j: int| 0 <= j < i ==> ascii_digit(#[trigger] p@[j]),
            v == digits_value(p@.take(i as int)),
            v < 1000,
            i == 0 ==> v == 0,
            i == 1 ==> v < 10,
            i == 2 ==> v < 100,
        decreases p.len() - i,
    {
        let c = p[i];
        if !('0' <= c && c <= '9') {
            return None;
        }
        let d = (c as u32) - ('0' as u32);
        assert(p@.take(i + 1).drop_last() =~= p@.take(i as int));
        v = v * 10 + d;
        i = i + 1;
    }
    assert(p@.take(p@.len() as int) =~= p@);
    if v > 255 {
        return None;
    }
    Some(v as u8)
}

/// The address `s` spells in dotted-decimal notation, if any.
pub fn parse_ipv4_chars(s: &[char]) -> (r: Option<Ipv4Octets>)
    ensures
        r == parse_ipv4(s@),
{
    let parts = split_chars(s, '.');
    proof {
        assert(views(parts@).len() == parts@.len());
    }
    if parts.len() != 4 {
        return None;
    }
    proof {
        assert(views(parts@)[0] == parts@[0]@);
        assert(views(parts@)[1] == parts@[1]@);
        assert(views(parts@)[2] == parts@[2]@);
        assert(views(parts@)[3] == parts@[3]@);
    }
    let a = octet_of(parts[0].as_slice());
    let b = octet_of(parts[1].as_slice());
    let c = octet_of(parts[2].as_slice());
    let d = octet_of(parts[3].as_slice());
    match (a, b, c, d) {
        (Some(a), Some(b), Some(c), Some(d)) => Some(Ipv4Octets(a, b, c, d)),
        _ => None,
    }
}

/// The address a word of `ip -br addr` output names: the part before its
/// first `/` (dropping the prefix length), read as dotted decimal.
pub open spec fn word_address(w: Seq<char>) -> Option<Ipv4Octets> {
    parse_ipv4(split_on(w, '/')[0])
}

/// The usable addresses that `ws` name, in order.
pub open spec fn usable_addresses(ws: Seq<Seq<char>>) -> Seq<Ipv4Octets>
    decreases ws.len(),
{
    if ws.len() == 0 {
        seq![]
    } else {
        usable_addresses(ws.drop_last()) + match word_address(ws.last()) {
            Some(ip) => if usable_lan(ip) {
                seq![ip]
            } else {
                seq![]
            },
            None => seq![],
        }
    }
}

/// Interface names that are virtual or container links, checked against
/// the lower-cased line.
pub open spec fn virtual_link(lower: Seq<char>) -> bool {
    ||| (lower.len() >= 3 && lower.take(3) == "lo "@)
    ||| has_infix(lower, "docker"@)
    ||| has_infix(lower, "veth"@)
    ||| has_infix(lower, "br-"@)
    ||| has_infix(lower, "virbr"@)
    ||| has_infix(lower, "tun"@)
    ||| has_infix(lower, "mihomo"@)
    ||| has_infix(lower, "meta"@)
    ||| has_infix(lower, "wg"@)
}

/// Whether a line of `ip -4 -br addr show` output is passed over: a
/// virtual or container link, or a link that is not up.
pub open spec fn skipped_line(line: Seq<char>) -> bool {
    let lower = ascii_lower(line);
    virtual_link(lower) || (!has_infix(lower, " up "@) && !has_infix(line, " UP "@))
}

/// The usable addresses one line lists after its name and state.
pub open spec fn line_addresses(line: Seq<char>) -> Seq<Ipv4Octets> {
    if skipped_line(line) {
        seq![]
    } else {
        let w = words(line);
        usable_addresses(
            if w.len() > 2 {
                w.subrange(2, w.len() as int)
            } else {
                seq![]
            },
        )
    }
}

/// The usable addresses all `lines` list, in order, repeats included.
pub open spec fn listed_addresses(lines: Seq<Seq<char>>) -> Seq<Ipv4Octets>
    decreases lines.len(),
{
    if lines.len() == 0 {
        seq![]
    } else {
        listed_addresses(lines.drop_last()) + line_addresses(lines.last())
    }
}

/// `acc` followed by the elements of `more` it does not hold yet, each
/// only once, in the order of `more`.
pub open spec fn add_new(acc: Seq<Ipv4Octets>, more: Seq<Ipv4Octets>) -> Seq<Ipv4Octets>
    decreases more.len(),
{
    if more.len() == 0 {
        acc
    } else {
        let a = add_new(acc, more.drop_last());
        if a.contains(more.last()) {
            a
        } else {
            a.push(more.last())
        }
    }
}

/// The addresses read from the output of `ip -4 -br addr show`: those of
/// up, non-virtual links that are usable, first occurrences only.
pub open spec fn ip_output_addresses(text: Seq<char>) -> Seq<Ipv4Octets> {
    add_new(seq![], listed_addresses(text_lines(text)))
}

/// Appends to `acc` the elements of `more` it does not hold yet.
fn add_new_into(acc: &mut Vec<Ipv4Octets>, more: &[Ipv4Octets])
    ensures
        final(acc)@ == add_new(old(acc)@, more@),
{
    let mut i: usize = 0;
    assert(more@.take(0) =~= Seq::<Ipv4Octets>::empty());
    while i < more.len()
        invariant
            i <= more.len(),
            acc@ == add_new(old(acc)@, more@.take(i as int)),
        decreases more.len() - i,
    {
        let ip = more[i];
        assert(more@.take(i + 1).drop_last() =~= more@.take(i as int));
        let mut found = false;
        let mut j: usize = 0;
        while j < acc.len()
            invariant
                j <= acc@.len(),
                found == (exists|k: int| 0 <= k < j && acc@[k] == ip),
            decreases acc@.len() - j,
        {
            if acc[j] == ip {
                found = true;
            }
            j = j + 1;
        }
        if !found {
            acc.push(ip);
        }
        i = i + 1;
    }
    assert(more@.take(more@.len() as int) =~= more@);
}

/// The usable addresses the words `ws` name, in order.
fn usable_addresses_of(ws: &[Vec<char>], from: usize) -> (r: Vec<Ipv4Octets>)
    requires
        from <= ws@.len(),
    ensures
        r@ == usable_addresses(views(ws@).subrange(from as int, ws@.len() as int)),
{
    let mut out: Vec<Ipv4Octets> = Vec::new();
    let mut i = from;
    assert(views(ws@).subrange(from as int, from as int) =~= Seq::<Seq<char>>::empty());
    while i < ws.len()
        invariant
            from <= i <= ws@.len(),
            out@ == usable_addresses(views(ws@).subrange(from as int, i as int)),
        decreases ws@.len() - i,
    {
        let w = &ws[i];
        let parts = split_chars(w.as_slice(), '/');
        proof {
            assert(views(ws@)[i as int] == w@);
            assert(views(parts@)[0] == parts@[0]@);
            assert(views(ws@).subrange(from as int, i + 1).drop_last() =~= views(ws@).subrange(
                from as int,
                i as int,
            ));
        }
        let addr = parse_ipv4_chars(parts[0].as_slice());
        match addr {
            Some(ip) => {
                if is_usable_lan_v4(ip) {
                    out.push(ip);
                    assert(out@ =~= usable_addresses(views(ws@).subrange(from as int, i + 1)));
                } else {
                    assert(out@ =~= usable_addresses(views(ws@).subrange(from as int, i + 1)));
                }
            },
            None => {
                assert(out@ =~= usable_addresses(views(ws@).subrange(from as int, i + 1)));
            },
        }
        i = i + 1;
    }
    out
}

/// Whether `needle` occurs in `hay`, for a literal needle.
fn has_text(hay: &[char], needle: &str) -> (r: bool)
    ensures
        r == has_infix(hay@, needle@),
{
    let n = chars_of(needle);
    contains_chars(hay, n.as_slice())
}

/// Whether a line of `ip -4 -br addr show` output is passed over.
fn is_skipped_line(line: &[char]) -> (r: bool)
    ensures
        r == skipped_line(line@),
{
    let lower = ascii_lower_of(line);
    let l = lower.as_slice();
    let lo = l.len() >= 3 && l[0] == 'l' && l[1] == 'o' && l[2] == ' ';
    proof {
        reveal_strlit("lo ");
        let lo_text = "lo "@;
        assert(lo_text.len() == 3 && lo_text[0] == 'l' && lo_text[1] == 'o' && lo_text[2] == ' ');
        if l@.len() >= 3 {
            if lo {
                assert(l@.take(3) =~= lo_text);
            } else {
                assert(l@.take(3)[0] != lo_text[0] || l@.take(3)[1] != lo_text[1] || l@.take(3)[2]
                    != lo_text[2]);
            }
        }
    }
    if lo || has_text(l, "docker") || has_text(l, "veth") || has_text(l, "br-") || has_text(
        l,
        "virbr",
    ) || has_text(l, "tun") || has_text(l, "mihomo") || has_text(l, "meta") || has_text(l, "wg") {
        return true;
    }
    !has_text(l, " up ") && !has_text(line, " UP ")
}

/// The usable addresses that the output of `ip -4 -br addr show` lists
/// for up, non-virtual links, each once, in order of appearance.
pub fn ips_from_ip_output(text: &str) -> (r: Vec<Ipv4Octets>)
    ensures
        r@ == ip_output_addresses(text@),
{
    let chars = chars_of(text);
    let lines = lines_of(chars.as_slice());
    let ghost lv = views(lines@);
    let mut ips: Vec<Ipv4Octets> = Vec::new();
    let mut i: usize = 0;
    assert(lv.take(0) =~= Seq::<Seq<char>>::empty());
    while i < lines.len()
        invariant
            lv == views(lines@),
            lv == text_lines(text@),
            i <= lines@.len(),
            ips@ == add_new(seq![], listed_addresses(lv.take(i as int))),
        decreases lines@.len() - i,
    {
        let line = lines[i].as_slice();
        proof {
            assert(lv[i as int] == line@);
            assert(lv.take(i + 1).drop_last() =~= lv.take(i as int));
        }
        if !is_skipped_line(line) {
            let ws = words_of(line);
            let found = if ws.len() > 2 {
                usable_addresses_of(ws.as_slice(), 2)
            } else {
                Vec::new()
            };
            proof {
                assert(views(ws@) == words(line@));
                if ws@.len() <= 2 {
                    assert(found@ =~= usable_addresses(Seq::<Seq<char>>::empty()));
                }
            }
            add_new_into(&mut ips, found.as_slice());
            proof {
                lemma_add_new_append(seq![], listed_addresses(lv.take(i as int)), found@);
            }
        } else {
            proof {
                assert(listed_addresses(lv.take(i + 1)) =~= listed_addresses(lv.take(i as int)));
            }
        }
        i = i + 1;
    }
    assert(lv.take(lv.len() as int) =~= lv);
    ips
}

/// Adding `b` then `c` adds the same as adding `b + c`.
pub proof fn lemma_add_new_append(a: Seq<Ipv4Octets>, b: Seq<Ipv4Octets>, c: Seq<Ipv4Octets>)
    ensures
        add_new(add_new(a, b), c) == add_new(a, b + c),
    decreases c.len(),
{
    if c.len() == 0 {
        assert(b + c =~= b);
    } else {
        lemma_add_new_append(a, b, c.drop_last());
        assert((b + c).drop_last() =~= b + c.drop_last());
        assert((b + c).last() == c.last());
    }
}

} // verus!

verus! {

// ---------------------------------------------------------------------------
// Base URLs
// ---------------------------------------------------------------------------

/// The usable elements of `s`, in order.
pub open spec fn usable_only(s: Seq<Ipv4Octets>) -> Seq<Ipv4Octets>
    decreases s.len(),
{
    if s.len() == 0 {
        seq![]
    } else {
        usable_only(s.drop_last()) + if usable_lan(s.last()) {
            seq![s.last()]
        } else {
            seq![]
        }
    }
}

/// The usable addresses among `candidates`, each once, in order.
pub fn usable_unique(candidates: &[Ipv4Octets]) -> (r: Vec<Ipv4Octets>)
    ensures
        r@ == add_new(seq![], usable_only(candidates@)),
{
    let mut usable: Vec<Ipv4Octets> = Vec::new();
    let mut i: usize = 0;
    assert(candidates@.take(0) =~= Seq::<Ipv4Octets>::empty());
    while i < candidates.len()
        invariant
            i <= candidates@.len(),
            usable@ == usable_only(candidates@.take(i as int)),
        decreases candidates@.len() - i,
    {
        let ip = candidates[i];
        assert(candidates@.take(i + 1).drop_last() =~= candidates@.take(i as int));
        if is_usable_lan_v4(ip) {
            usable.push(ip);
        }
        assert(usable@ =~= usable_only(candidates@.take(i + 1)));
        i = i + 1;
    }
    assert(candidates@.take(candidates@.len() as int) =~= candidates@);
    let mut out: Vec<Ipv4Octets> = Vec::new();
    add_new_into(&mut out, usable.as_slice());
    out
}

/// The order in which addresses are offered: `192.168.x.x` first, then
/// `10.x.x.x`, then the rest.
pub open spec fn rank(ip: Ipv4Octets) -> nat {
    if ip.0 == 192 && ip.1 == 168 {
        0
    } else if ip.0 == 10 {
        1
    } else {
        2
    }
}

/// The elements of `s` of rank `k`, in order.
pub open spec fn of_rank(s: Seq<Ipv4Octets>, k: nat) -> Seq<Ipv4Octets>
    decreases s.len(),
{
    if s.len() == 0 {
        seq![]
    } else {
        of_rank(s.drop_last(), k) + if rank(s.last()) == k {
            seq![s.last()]
        } else {
            seq![]
        }
    }
}

/// `s` stably sorted by [`rank`], as `sort_by_key` leaves it.
pub open spec fn ranked(s: Seq<Ipv4Octets>) -> Seq<Ipv4Octets> {
    of_rank(s, 0) + of_rank(s, 1) + of_rank(s, 2)
}

/// The rank of `ip`.
fn rank_of(ip: Ipv4Octets) -> (r: u8)
    ensures
        r as nat == rank(ip),
{
    if ip.0 == 192 && ip.1 == 168 {
        0
    } else if ip.0 == 10 {
        1
    } else {
        2
    }
}

/// Appends the elements of `s` of rank `k`, in order.
fn push_of_rank(out: &mut Vec<Ipv4Octets>, s: &[Ipv4Octets], k: u8)
    ensures
        final(out)@ == old(out)@ + of_rank(s@, k as nat),
{
    let mut i: usize = 0;
    assert(s@.take(0) =~= Seq::<Ipv4Octets>::empty());
    assert(old(out)@ + of_rank(s@.take(0), k as nat) =~= old(out)@);
    while i < s.len()
        invariant
            i <= s@.len(),
            out@ == old(out)@ + of_rank(s@.take(i as int), k as nat),
        decreases s@.len() - i,
    {
        let ip = s[i];
        assert(s@.take(i + 1).drop_last() =~= s@.take(i as int));
        if rank_of(ip) == k {
            out.push(ip);
        }
        assert(out@ =~= old(out)@ + of_rank(s@.take(i + 1), k as nat));
        i = i + 1;
    }
    assert(s@.take(s@.len() as int) =~= s@);
}

/// `ip` in dotted-decimal notation, as `Ipv4Addr` displays it.
pub open spec fn dotted(ip: Ipv4Octets) -> Seq<char> {
    decimal(ip.0 as nat) + "."@ + decimal(ip.1 as nat) + "."@ + decimal(ip.2 as nat) + "."@
        + decimal(ip.3 as nat)
}

/// The base URL `http://{ip}:{port}`.
pub open spec fn base_url(ip: Ipv4Octets, port: u16) -> Seq<char> {
    "http://"@ + dotted(ip) + ":"@ + decimal(port as nat)
}

/// The loopback base URL, offered when no local-network address is known.
pub open spec fn loopback_url(port: u16) -> Seq<char> {
    "http://127.0.0.1:"@ + decimal(port as nat)
}

/// The base URLs offered for `port`: the addresses from the `ip` command,
/// then new ones from the socket probe, ranked; the loopback URL when
/// there are none.
pub open spec fn lan_urls_spec(ip_cmd: Seq<Ipv4Octets>, probed: Seq<Ipv4Octets>, port: u16) -> Seq<
    Seq<char>,
> {
    let ips = ranked(add_new(ip_cmd, probed));
    if ips.len() == 0 {
        seq![loopback_url(port)]
    } else {
        ips.map_values(|ip: Ipv4Octets| base_url(ip, port))
    }
}

/// The base URL for `ip` and `port`.
pub fn url_for(ip: Ipv4Octets, port: u16) -> (r: String)
    ensures
        r@ == base_url(ip, port),
{
    let mut s = owned("http://");
    let a = decimal_string(ip.0 as u64);
    s.append(a.as_str());
    s.append(".");
    let b = decimal_string(ip.1 as u64);
    s.append(b.as_str());
    s.append(".");
    let c = decimal_string(ip.2 as u64);
    s.append(c.as_str());
    s.append(".");
    let d = decimal_string(ip.3 as u64);
    s.append(d.as_str());
    s.append(":");
    let p = decimal_string(port as u64);
    s.append(p.as_str());
    s
}

/// The base URLs other devices can use to reach the API on `port`, such
/// as `http://192.168.1.10:18765`, from the addresses the `ip` command
/// listed and those the socket probe found.
pub fn lan_base_urls(ip_cmd: &[Ipv4Octets], probed: &[Ipv4Octets], port: u16) -> (r: Vec<String>)
    ensures
        r@.map_values(|u: String| u@) == lan_urls_spec(ip_cmd@, probed@, port),
        r@.len() >= 1,
{
    let mut ips: Vec<Ipv4Octets> = Vec::new();
    let mut k: usize = 0;
    while k < ip_cmd.len()
        invariant
            k <= ip_cmd@.len(),
            ips@ =~= ip_cmd@.take(k as int),
        decreases ip_cmd@.len() - k,
    {
        ips.push(ip_cmd[k]);
        assert(ip_cmd@.take(k + 1) =~= ip_cmd@.take(k as int).push(ip_cmd@[k as int]));
        k = k + 1;
    }
    assert(ip_cmd@.take(ip_cmd@.len() as int) =~= ip_cmd@);
    add_new_into(&mut ips, probed);
    let mut sorted: Vec<Ipv4Octets> = Vec::new();
    push_of_rank(&mut sorted, ips.as_slice(), 0);
    push_of_rank(&mut sorted, ips.as_slice(), 1);
    push_of_rank(&mut sorted, ips.as_slice(), 2);
    assert(sorted@ =~= ranked(ips@));
    let mut out: Vec<String> = Vec::new();
    if sorted.len() == 0 {
        let mut s = owned("http://127.0.0.1:");
        let p = decimal_string(port as u64);
        s.append(p.as_str());
        out.push(s);
        assert(out@.map_values(|u: String| u@) =~= seq![loopback_url(port)]);
        return out;
    }
    let mut i: usize = 0;
    while i < sorted.len()
        invariant
            i <= sorted@.len(),
            out@.map_values(|u: String| u@) =~= sorted@.take(i as int).map_values(
                |ip: Ipv4Octets| base_url(ip, port),
            ),
        decreases sorted@.len() - i,
    {
        let u = url_for(sorted[i], port);
        let ghost before = out@;
        out.push(u);
        assert(out@.map_values(|u: String| u@) =~= before.map_values(|u: String| u@).push(
            base_url(sorted@[i as int], port),
        ));
        assert(sorted@.take(i + 1) =~= sorted@.take(i as int).push(sorted@[i as int]));
        assert(sorted@.take(i + 1).map_values(|ip: Ipv4Octets| base_url(ip, port)) =~= sorted@.take(
            i as int,
        ).map_values(|ip: Ipv4Octets| base_url(ip, port)).push(base_url(sorted@[i as int], port)));
        i = i + 1;
    }
    assert(sorted@.take(sorted@.len() as int) =~= sorted@);
    out
}

} // verus!

verus! {

// ---------------------------------------------------------------------------
// Laws
// ---------------------------------------------------------------------------

/// No element occurs twice in `s`.
pub open spec fn distinct(s: Seq<Ipv4Octets>) -> bool {
    forall|i: int, j: int| 0 <= i < j < s.len() ==> s[i] != s[j]
}

/// Adding new elements to a list without repeats gives a list without
/// repeats that holds exactly the elements of both.
pub proof fn lemma_add_new_distinct(acc: Seq<Ipv4Octets>, more: Seq<Ipv4Octets>)
    requires
        distinct(acc),
    ensures
        distinct(add_new(acc, more)),
        forall|x: Ipv4Octets| #[trigger]
            add_new(acc, more).contains(x) <==> (acc.contains(x) || more.contains(x)),
    decreases more.len(),
{
    if more.len() > 0 {
        let m = more.drop_last();
        lemma_add_new_distinct(acc, m);
        let a = add_new(acc, m);
        assert forall|x: Ipv4Octets| #[trigger]
            add_new(acc, more).contains(x) <==> (acc.contains(x) || more.contains(x)) by {
            if more.contains(x) && !m.contains(x) {
                assert(x == more.last()) by {
                    let k = choose|k: int| 0 <= k < more.len() && more[k] == x;
                    if k < more.len() - 1 {
                        assert(m[k] == x);
                    }
                }
            }
            if m.contains(x) {
                let k = choose|k: int| 0 <= k < m.len() && m[k] == x;
                assert(more[k] == x);
            }
            if !a.contains(more.last()) && x == more.last() {
                assert(a.push(more.last())[a.len() as int] == x);
            }
            if a.contains(x) && !a.contains(more.last()) {
                let k = choose|k: int| 0 <= k < a.len() && a[k] == x;
                assert(a.push(more.last())[k] == x);
            }
        }
    }
}

/// Every element of `usable_addresses(ws)` is usable.
proof fn lemma_usable_addresses_usable(ws: Seq<Seq<char>>)
    ensures
        forall|i: int|
            0 <= i < usable_addresses(ws).len() ==> usable_lan(#[trigger] usable_addresses(ws)[i]),
    decreases ws.len(),
{
    if ws.len() > 0 {
        lemma_usable_addresses_usable(ws.drop_last());
        let p = usable_addresses(ws.drop_last());
        let q: Seq<Ipv4Octets> = match word_address(ws.last()) {
            Some(ip) => if usable_lan(ip) {
                seq![ip]
            } else {
                seq![]
            },
            None => seq![],
        };
        assert(usable_addresses(ws) == p + q);
        assert forall|i: int| 0 <= i < (p + q).len() implies usable_lan(#[trigger] (p + q)[i]) by {
            if i >= p.len() {
                assert((p + q)[i] == q[i - p.len()]);
            }
        }
    }
}

/// Every element of `listed_addresses(lines)` is usable.
proof fn lemma_listed_usable(lines: Seq<Seq<char>>)
    ensures
        forall|i: int|
            0 <= i < listed_addresses(lines).len() ==> usable_lan(
                #[trigger] listed_addresses(lines)[i],
            ),
    decreases lines.len(),
{
    if lines.len() > 0 {
        lemma_listed_usable(lines.drop_last());
        let l = lines.last();
        if !skipped_line(l) {
            let w = words(l);
            lemma_usable_addresses_usable(
                if w.len() > 2 {
                    w.subrange(2, w.len() as int)
                } else {
                    seq![]
                },
            );
        }
        let p = listed_addresses(lines.drop_last());
        let q = line_addresses(l);
        assert forall|i: int| 0 <= i < (p + q).len() implies usable_lan(#[trigger] (p + q)[i]) by {
            if i >= p.len() {
                assert((p + q)[i] == q[i - p.len()]);
            }
        }
    }
}

/// The addresses read from `ip` output are all usable on the local
/// network, and none is listed twice.
pub proof fn lemma_ip_output_usable_distinct(text: Seq<char>)
    ensures
        distinct(ip_output_addresses(text)),
        forall|i: int|
            0 <= i < ip_output_addresses(text).len() ==> usable_lan(
                #[trigger] ip_output_addresses(text)[i],
            ),
{
    let all = listed_addresses(text_lines(text));
    lemma_add_new_distinct(seq![], all);
    lemma_listed_usable(text_lines(text));
    assert forall|i: int|
        0 <= i < ip_output_addresses(text).len() implies usable_lan(
        #[trigger] ip_output_addresses(text)[i],
    ) by {
        let x = ip_output_addresses(text)[i];
        assert(ip_output_addresses(text).contains(x));
        let k = choose|k: int| 0 <= k < all.len() && all[k] == x;
    }
}

/// Whether the lower-cased line names a loopback, container, bridge,
/// tunnel or proxy link: it opens with `lo ` or contains `docker`, `veth`,
/// `br-`, `virbr`, `tun`, `mihomo`, `meta` or `wg`.
pub open spec fn names_virtual_link(line: Seq<char>) -> bool {
    let lower = ascii_lower(line);
    ||| lower.len() >= 3 && lower[0] == 'l' && lower[1] == 'o' && lower[2] == ' '
    ||| has_infix(lower, "docker"@)
    ||| has_infix(lower, "veth"@)
    ||| has_infix(lower, "br-"@)
    ||| has_infix(lower, "virbr"@)
    ||| has_infix(lower, "tun"@)
    ||| has_infix(lower, "mihomo"@)
    ||| has_infix(lower, "meta"@)
    ||| has_infix(lower, "wg"@)
}

/// Whether the line marks its link as up: ` up ` in any case of letters,
/// or ` UP `.
pub open spec fn marked_up(line: Seq<char>) -> bool {
    has_infix(ascii_lower(line), " up "@) || has_infix(line, " UP "@)
}

/// A line of `ip` output for a loopback, container, bridge, tunnel or proxy
/// link, or for a link that is not up, contributes no address, and adding
/// it to any listing changes nothing.
pub proof fn lemma_passed_over_lines_give_nothing(lines: Seq<Seq<char>>, line: Seq<char>)
    requires
        names_virtual_link(line) || !marked_up(line),
    ensures
        line_addresses(line) == Seq::<Ipv4Octets>::empty(),
        listed_addresses(lines.push(line)) == listed_addresses(lines),
{
    let lower = ascii_lower(line);
    if lower.len() >= 3 && lower[0] == 'l' && lower[1] == 'o' && lower[2] == ' ' {
        reveal_strlit("lo ");
        assert(lower.take(3) =~= "lo "@);
    }
    assert(skipped_line(line));
    assert(lines.push(line).drop_last() =~= lines);
    assert(listed_addresses(lines.push(line)) =~= listed_addresses(lines) + line_addresses(line));
}

/// Every address listed comes from one of the lines.
proof fn lemma_listed_from_line(lines: Seq<Seq<char>>, ip: Ipv4Octets)
    requires
        listed_addresses(lines).contains(ip),
    ensures
        exists|k: int| 0 <= k < lines.len() && line_addresses(#[trigger] lines[k]).contains(ip),
    decreases lines.len(),
{
    let p = listed_addresses(lines.drop_last());
    let q = line_addresses(lines.last());
    let j = choose|j: int| 0 <= j < (p + q).len() && (p + q)[j] == ip;
    if j < p.len() {
        assert(p[j] == ip);
        lemma_listed_from_line(lines.drop_last(), ip);
        let k = choose|k: int|
            0 <= k < lines.drop_last().len() && line_addresses(#[trigger] lines.drop_last()[k]).contains(ip);
        assert(lines[k] == lines.drop_last()[k]);
    } else {
        assert(q[j - p.len()] == ip);
        assert(lines[lines.len() - 1] == lines.last());
    }
}

/// Every address read from `ip` output is listed on a line of that output
/// whose link is up and is neither loopback nor a container, bridge,
/// tunnel or proxy link.
pub proof fn lemma_addresses_from_up_physical_links(text: Seq<char>, ip: Ipv4Octets)
    requires
        ip_output_addresses(text).contains(ip),
    ensures
        exists|k: int|
            0 <= k < text_lines(text).len() && line_addresses(#[trigger] text_lines(text)[k]).contains(
                ip,
            ) && !names_virtual_link(text_lines(text)[k]) && marked_up(text_lines(text)[k]),
{
    let lines = text_lines(text);
    lemma_add_new_distinct(seq![], listed_addresses(lines));
    assert(listed_addresses(lines).contains(ip));
    lemma_listed_from_line(lines, ip);
    let k = choose|k: int| 0 <= k < lines.len() && line_addresses(#[trigger] lines[k]).contains(ip);
    let l = lines[k];
    if names_virtual_link(l) || !marked_up(l) {
        lemma_passed_over_lines_give_nothing(seq![], l);
        assert(!line_addresses(l).contains(ip));
    }
}

/// `of_rank(s, k)` holds the elements of `s` of rank `k`.
proof fn lemma_of_rank(s: Seq<Ipv4Octets>, k: nat)
    ensures
        forall|i: int| 0 <= i < of_rank(s, k).len() ==> rank(#[trigger] of_rank(s, k)[i]) == k,
        forall|x: Ipv4Octets| #[trigger]
            of_rank(s, k).contains(x) <==> (s.contains(x) && rank(x) == k),
    decreases s.len(),
{
    if s.len() > 0 {
        let m = s.drop_last();
        lemma_of_rank(m, k);
        let p = of_rank(m, k);
        let q: Seq<Ipv4Octets> = if rank(s.last()) == k {
            seq![s.last()]
        } else {
            seq![]
        };
        assert(of_rank(s, k) == p + q);
        assert forall|i: int| 0 <= i < (p + q).len() implies rank(#[trigger] (p + q)[i]) == k by {
            if i >= p.len() {
                assert((p + q)[i] == q[i - p.len()]);
            }
        }
        assert forall|x: Ipv4Octets| #[trigger]
            (p + q).contains(x) <==> (s.contains(x) && rank(x) == k) by {
            if (p + q).contains(x) {
                let j = choose|j: int| 0 <= j < (p + q).len() && (p + q)[j] == x;
                if j < p.len() {
                    assert(p[j] == x);
                    assert(p.contains(x));
                    assert(m.contains(x));
                    let t = choose|t: int| 0 <= t < m.len() && m[t] == x;
                    assert(s[t] == x);
                } else {
                    assert(q[j - p.len()] == x);
                    assert(s[s.len() - 1] == x);
                }
            }
            if s.contains(x) && rank(x) == k {
                let t = choose|t: int| 0 <= t < s.len() && s[t] == x;
                if t < s.len() - 1 {
                    assert(m[t] == x);
                    assert(m.contains(x));
                    assert(p.contains(x));
                    let j = choose|j: int| 0 <= j < p.len() && p[j] == x;
                    assert((p + q)[j] == x);
                } else {
                    assert((p + q)[p.len() as int] == x);
                }
            }
        }
    }
}

/// Ranking puts every `192.168.x.x` address before every `10.x.x.x`
/// address, and these before the rest, and keeps exactly the same addresses.
pub proof fn lemma_ranked_order(s: Seq<Ipv4Octets>)
    ensures
        forall|i: int, j: int|
            0 <= i < j < ranked(s).len() ==> rank(#[trigger] ranked(s)[i]) <= rank(
                #[trigger] ranked(s)[j],
            ),
        forall|x: Ipv4Octets| #[trigger] ranked(s).contains(x) <==> s.contains(x),
{
    lemma_of_rank(s, 0);
    lemma_of_rank(s, 1);
    lemma_of_rank(s, 2);
    let a = of_rank(s, 0);
    let b = of_rank(s, 1);
    let c = of_rank(s, 2);
    let r = ranked(s);
    assert(r == a + b + c);
    assert forall|i: int| 0 <= i < r.len() implies rank(#[trigger] r[i]) == (if i < a.len() {
        0nat
    } else if i < a.len() + b.len() {
        1nat
    } else {
        2nat
    }) by {
        if i < a.len() {
            assert(r[i] == a[i]);
        } else if i < a.len() + b.len() {
            assert(r[i] == b[i - a.len()]);
        } else {
            assert(r[i] == c[i - a.len() - b.len()]);
        }
    }
    assert forall|x: Ipv4Octets| #[trigger] r.contains(x) <==> s.contains(x) by {
        if r.contains(x) {
            let j = choose|j: int| 0 <= j < r.len() && r[j] == x;
            if j < a.len() {
                assert(a[j] == x);
                assert(a.contains(x));
            } else if j < a.len() + b.len() {
                assert(b[j - a.len()] == x);
                assert(b.contains(x));
            } else {
                assert(c[j - a.len() - b.len()] == x);
                assert(c.contains(x));
            }
        }
        if s.contains(x) {
            assert(a.contains(x) || b.contains(x) || c.contains(x));
            if rank(x) == 0 {
                let j = choose|j: int| 0 <= j < a.len() && a[j] == x;
                assert(r[j] == x);
            } else if rank(x) == 1 {
                let j = choose|j: int| 0 <= j < b.len() && b[j] == x;
                assert(r[a.len() + j] == x);
            } else {
                let j = choose|j: int| 0 <= j < c.len() && c[j] == x;
                assert(r[a.len() + b.len() + j] == x);
            }
        }
    }
}

} // verus!
