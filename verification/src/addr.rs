//! IP addresses as plain values, and parsing of textual address literals.
//!
//! Record values arrive from the provider as strings; desired addresses are
//! discovered externally. Both are modelled here as `IpAddress`, a 32-bit
//! value for IPv4 and a 128-bit value for IPv6. The grammar of literals is
//! given by spec functions (`spec_parse_ipv4`, `spec_parse_ipv6`), and the
//! executable parsers are proved to implement it exactly.

use vstd::prelude::*;
use vstd::string::StrSliceExecFns;
use vstd::utf8::is_ascii_chars;

verus! {

/// An IP address of either family, as a plain numeric value in network
/// (big-endian) reading order.
#[derive(Clone, Copy, Debug, PartialEq, Eq, Structural)]
pub enum IpAddress {
    V4(u32),
    V6(u128),
}

impl IpAddress {
    /// True of IPv4 addresses.
    pub open spec fn spec_is_v4(self) -> bool {
        self is V4
    }

    /// True of IPv6 addresses.
    pub open spec fn spec_is_v6(self) -> bool {
        self is V6
    }

    /// Builds an IPv4 address from its four dotted-quad octets.
    pub fn from_octets(a: u8, b: u8, c: u8, d: u8) -> (r: IpAddress)
        ensures
            r == IpAddress::V4(
                ((a as int) * 0x1000000 + (b as int) * 0x10000 + (c as int) * 0x100
                    + (d as int)) as u32,
            ),
    {
        IpAddress::V4((a as u32) * 0x1000000 + (b as u32) * 0x10000 + (c as u32) * 0x100 + (d as u32))
    }

    /// Tells the address family apart.
    pub fn is_v4(&self) -> (r: bool)
        ensures
            r == self.spec_is_v4(),
    {
        match self {
            IpAddress::V4(_) => true,
            IpAddress::V6(_) => false,
        }
    }

    /// Whether the address lies outside the well-known non-routable ranges:
    /// for IPv4 the unspecified, private, loopback, link-local, carrier-grade
    /// NAT, documentation, benchmarking and reserved blocks; for IPv6 the
    /// unspecified and loopback addresses, unique-local, link-local and
    /// documentation blocks.
    pub open spec fn spec_globally_routable(self) -> bool {
        match self {
            IpAddress::V4(v) => {
                let o1 = v as int / 0x1000000;
                let o2 = (v as int / 0x10000) % 0x100;
                let o3 = (v as int / 0x100) % 0x100;
                &&& o1 != 0
                &&& o1 != 10
                &&& o1 != 127
                &&& !(o1 == 100 && 64 <= o2 < 128)
                &&& !(o1 == 169 && o2 == 254)
                &&& !(o1 == 172 && 16 <= o2 < 32)
                &&& !(o1 == 192 && o2 == 168)
                &&& !(o1 == 192 && o2 == 0 && o3 == 2)
                &&& !(o1 == 198 && (o2 == 18 || o2 == 19))
                &&& !(o1 == 198 && o2 == 51 && o3 == 100)
                &&& !(o1 == 203 && o2 == 0 && o3 == 113)
                &&& o1 < 240
            },
            IpAddress::V6(w) => {
                let top8 = w as int / 0x1000000000000000000000000000000;
                let top10 = w as int / 0x400000000000000000000000000000;
                let top32 = w as int / 0x1000000000000000000000000;
                &&& w != 0
                &&& w != 1
                &&& !(top8 == 0xfc || top8 == 0xfd)
                &&& top10 != 0x3fa
                &&& top32 != 0x20010db8
            },
        }
    }

    /// Decides `spec_globally_routable`.
    pub fn is_globally_routable(&self) -> (r: bool)
        ensures
            r == self.spec_globally_routable(),
    {
        match self {
            IpAddress::V4(v) => {
                let o1 = *v / 0x1000000;
                let o2 = (*v / 0x10000) % 0x100;
                let o3 = (*v / 0x100) % 0x100;
                o1 != 0 && o1 != 10 && o1 != 127 && !(o1 == 100 && 64 <= o2 && o2 < 128) && !(o1
                    == 169 && o2 == 254) && !(o1 == 172 && 16 <= o2 && o2 < 32) && !(o1 == 192 && o2
                    == 168) && !(o1 == 192 && o2 == 0 && o3 == 2) && !(o1 == 198 && (o2 == 18 || o2
                    == 19)) && !(o1 == 198 && o2 == 51 && o3 == 100) && !(o1 == 203 && o2 == 0 && o3
                    == 113) && o1 < 240
            },
            IpAddress::V6(w) => {
                let top8 = *w / 0x1000000000000000000000000000000;
                let top10 = *w / 0x400000000000000000000000000000;
                let top32 = *w / 0x1000000000000000000000000;
                *w != 0 && *w != 1 && !(top8 == 0xfc || top8 == 0xfd) && top10 != 0x3fa && top32
                    != 0x20010db8
            },
        }
    }
}

/// Splits a character sequence on a separator. The result always holds one
/// more part than there are separators; parts may be empty.
pub open spec fn split_on(s: Seq<char>, sep: char) -> Seq<Seq<char>>
    decreases s.len(),
{
    if s.len() == 0 {
        seq![Seq::<char>::empty()]
    } else if s.last() == sep {
        split_on(s.drop_last(), sep).push(Seq::<char>::empty())
    } else {
        let rest = split_on(s.drop_last(), sep);
        rest.update(rest.len() - 1, rest.last().push(s.last()))
    }
}

/// A split always yields at least one part.
pub proof fn lemma_split_on_len(s: Seq<char>, sep: char)
    ensures
        split_on(s, sep).len() >= 1,
    decreases s.len(),
{
    if s.len() > 0 {
        lemma_split_on_len(s.drop_last(), sep);
    }
}

/// Splits a string on a separator character.
fn split_str(s: &str, sep: char) -> (parts: Vec<String>)
    requires
        s.is_ascii(),
    ensures
        parts@.map_values(|p: String| p@) == split_on(s@, sep),
{
    let n = s.unicode_len();
    let mut parts: Vec<String> = Vec::new();
    let mut start: usize = 0;
    let mut i: usize = 0;
    proof {
        assert(s@.take(0) =~= Seq::<char>::empty());
        assert(split_on(s@.take(0), sep) =~~= parts@.map_values(|p: String| p@).push(
            s@.subrange(0, 0),
        ));
    }
    while i < n
        invariant
            s.is_ascii(),
            n == s@.len(),
            start <= i <= n,
            split_on(s@.take(i as int), sep) == parts@.map_values(|p: String| p@).push(
                s@.subrange(start as int, i as int),
            ),
        decreases n - i,
    {
        proof {
            assert(s@.take(i + 1).drop_last() =~= s@.take(i as int));
            assert(s@.take(i + 1).last() == s@[i as int]);
        }
        if s.get_char(i) == sep {
            let part = String::from_str(s.substring_ascii(start, i));
            parts.push(part);
            proof {
                assert(part@ =~= s@.subrange(start as int, i as int));
                assert(parts@.map_values(|p: String| p@) =~= parts@.map_values(
                    |p: String| p@,
                ).drop_last().push(part@));
                assert(split_on(s@.take(i + 1), sep) =~~= parts@.map_values(|p: String| p@).push(
                    s@.subrange(i + 1, i + 1),
                ));
            }
            start = i + 1;
        } else {
            proof {
                let old_parts = parts@.map_values(|p: String| p@).push(
                    s@.subrange(start as int, i as int),
                );
                assert(old_parts.last() == s@.subrange(start as int, i as int));
                assert(old_parts.last().push(s@[i as int]) =~= s@.subrange(start as int, i + 1));
                assert(split_on(s@.take(i + 1), sep) =~~= parts@.map_values(|p: String| p@).push(
                    s@.subrange(start as int, i + 1),
                ));
            }
        }
        i += 1;
    }
    let last = String::from_str(s.substring_ascii(start, n));
    parts.push(last);
    proof {
        assert(s@.take(n as int) =~= s@);
        assert(last@ =~= s@.subrange(start as int, n as int));
        assert(parts@.map_values(|p: String| p@) =~~= parts@.map_values(
            |p: String| p@,
        ).drop_last().push(last@));
    }
    parts
}

/// A decimal digit.
pub open spec fn is_dec_digit(c: char) -> bool {
    '0' <= c && c <= '9'
}

/// Its numeric value.
pub open spec fn dec_digit_val(c: char) -> int {
    c as u32 - '0' as u32
}

/// The value of a sequence of decimal digits, most significant first.
pub open spec fn dec_value(s: Seq<char>) -> int
    decreases s.len(),
{
    if s.len() == 0 {
        0
    } else {
        dec_value(s.drop_last()) * 10 + dec_digit_val(s.last())
    }
}

/// A dotted-quad octet: one to three decimal digits, value at most 255,
/// with no leading zero.
pub open spec fn is_octet_literal(s: Seq<char>) -> bool {
    &&& 1 <= s.len() <= 3
    &&& forall|i: int| 0 <= i < s.len() ==> is_dec_digit(#[trigger] s[i])
    &&& dec_value(s) <= 255
    &&& (s.len() > 1 ==> s[0] != '0')
}

/// Parses one dotted-quad octet.
fn parse_octet(s: &str) -> (r: Option<u8>)
    ensures
        r == (if is_octet_literal(s@) {
            Some(dec_value(s@) as u8)
        } else {
            None::<u8>
        }),
{
    let n = s.unicode_len();
    if n == 0 || n > 3 {
        return None;
    }
    let mut acc: u32 = 0;
    let mut i: usize = 0;
    while i < n
        invariant
            n == s@.len(),
            1 <= n <= 3,
            i <= n,
            forall|j: int| 0 <= j < i ==> is_dec_digit(#[trigger] s@[j]),
            acc == dec_value(s@.take(i as int)),
            acc <= 999,
        decreases n - i,
    {
        let c = s.get_char(i);
        let cu = c as u32;
        if cu < 48 || cu > 57 {
            assert(!is_dec_digit(s@[i as int]));
            return None;
        }
        proof {
            assert(s@.take(i + 1).drop_last() =~= s@.take(i as int));
            assert(s@.take(i + 1).last() == s@[i as int]);
            assert(dec_value(s@.take(i as int)) <= 99) by {
                lemma_dec_value_bound(s@.take(i as int));
            }
        }
        acc = acc * 10 + (cu - 48);
        i += 1;
    }
    proof {
        assert(s@.take(n as int) =~= s@);
    }
    if acc > 255 {
        return None;
    }
    if n > 1 && s.get_char(0) == '0' {
        return None;
    }
    Some(acc as u8)
}

/// A digit string of length at most `k` has value under `10^k` (stated for
/// the two-digit case the octet parser needs).
proof fn lemma_dec_value_bound(s: Seq<char>)
    requires
        s.len() <= 2,
        forall|j: int| 0 <= j < s.len() ==> is_dec_digit(#[trigger] s[j]),
    ensures
        dec_value(s) <= 99,
{
    if s.len() > 0 {
        assert(dec_value(s.drop_last()) <= 9) by {
            if s.len() == 2 {
                assert(dec_value(s.drop_last().drop_last()) == 0);
            }
        }
    }
}

/// The value of a digit string is never negative.
proof fn lemma_dec_value_nonneg(s: Seq<char>)
    requires
        forall|j: int| 0 <= j < s.len() ==> is_dec_digit(#[trigger] s[j]),
    ensures
        dec_value(s) >= 0,
    decreases s.len(),
{
    if s.len() > 0 {
        lemma_dec_value_nonneg(s.drop_last());
    }
}

/// The grammar of IPv4 literals: four octets separated by dots, ASCII.
pub open spec fn spec_parse_ipv4(s: Seq<char>) -> Option<u32> {
    if !is_ascii_chars(s) {
        None
    } else {
        let parts = split_on(s, '.');
        if parts.len() == 4 && is_octet_literal(parts[0]) && is_octet_literal(parts[1])
            && is_octet_literal(parts[2]) && is_octet_literal(parts[3]) {
            Some(
                (dec_value(parts[0]) * 0x1000000 + dec_value(parts[1]) * 0x10000 + dec_value(
                    parts[2],
                ) * 0x100 + dec_value(parts[3])) as u32,
            )
        } else {
            None
        }
    }
}

/// Parses an IPv4 literal.
pub fn parse_ipv4_literal(s: &str) -> (r: Option<u32>)
    ensures
        r == spec_parse_ipv4(s@),
{
    if !s.is_ascii() {
        return None;
    }
    let parts = split_str(s, '.');
    if parts.len() != 4 {
        proof {
            assert(parts@.map_values(|p: String| p@).len() == parts@.len());
        }
        return None;
    }
    proof {
        assert(parts@.map_values(|p: String| p@)[0] == parts@[0]@);
        assert(parts@.map_values(|p: String| p@)[1] == parts@[1]@);
        assert(parts@.map_values(|p: String| p@)[2] == parts@[2]@);
        assert(parts@.map_values(|p: String| p@)[3] == parts@[3]@);
    }
    let o0 = match parse_octet(parts[0].as_str()) {
        Some(v) => v,
        None => {
            return None;
        },
    };
    let o1 = match parse_octet(parts[1].as_str()) {
        Some(v) => v,
        None => {
            return None;
        },
    };
    let o2 = match parse_octet(parts[2].as_str()) {
        Some(v) => v,
        None => {
            return None;
        },
    };
    let o3 = match parse_octet(parts[3].as_str()) {
        Some(v) => v,
        None => {
            return None;
        },
    };
    proof {
        let sparts = split_on(s@, '.');
        lemma_dec_value_nonneg(sparts[0]);
        lemma_dec_value_nonneg(sparts[1]);
        lemma_dec_value_nonneg(sparts[2]);
        lemma_dec_value_nonneg(sparts[3]);
    }
    Some((o0 as u32) * 0x1000000 + (o1 as u32) * 0x10000 + (o2 as u32) * 0x100 + (o3 as u32))
}

/// A hexadecimal digit.
pub open spec fn is_hex_digit(c: char) -> bool {
    ('0' <= c && c <= '9') || ('a' <= c && c <= 'f') || ('A' <= c && c <= 'F')
}

/// Its numeric value.
pub open spec fn hex_digit_val(c: char) -> int {
    if '0' <= c && c <= '9' {
        c as u32 - '0' as u32
    } else if 'a' <= c && c <= 'f' {
        c as u32 - 'a' as u32 + 10
    } else {
        c as u32 - 'A' as u32 + 10
    }
}

/// The value of a sequence of hexadecimal digits, most significant first.
pub open spec fn hex_value(s: Seq<char>) -> int
    decreases s.len(),
{
    if s.len() == 0 {
        0
    } else {
        hex_value(s.drop_last()) * 16 + hex_digit_val(s.last())
    }
}

/// One colon-separated group of an IPv6 literal: one to four hex digits.
pub open spec fn is_h16(s: Seq<char>) -> bool {
    &&& 1 <= s.len() <= 4
    &&& forall|i: int| 0 <= i < s.len() ==> is_hex_digit(#[trigger] s[i])
}

/// A hex-digit string of length at most four stays within sixteen bits.
proof fn lemma_hex_value_bound(s: Seq<char>)
    requires
        s.len() <= 4,
        forall|j: int| 0 <= j < s.len() ==> is_hex_digit(#[trigger] s[j]),
    ensures
        0 <= hex_value(s),
        hex_value(s) <= 0xffff,
        s.len() <= 3 ==> hex_value(s) <= 0xfff,
        s.len() <= 2 ==> hex_value(s) <= 0xff,
        s.len() <= 1 ==> hex_value(s) <= 0xf,
    decreases s.len(),
{
    if s.len() > 0 {
        lemma_hex_value_bound(s.drop_last());
    }
}

/// Parses one hexadecimal group of an IPv6 literal.
fn parse_h16(s: &str) -> (r: Option<u16>)
    ensures
        r == (if is_h16(s@) {
            Some(hex_value(s@) as u16)
        } else {
            None::<u16>
        }),
{
    let n = s.unicode_len();
    if n == 0 || n > 4 {
        return None;
    }
    let mut acc: u32 = 0;
    let mut i: usize = 0;
    while i < n
        invariant
            n == s@.len(),
            1 <= n <= 4,
            i <= n,
            forall|j: int| 0 <= j < i ==> is_hex_digit(#[trigger] s@[j]),
            acc == hex_value(s@.take(i as int)),
        decreases n - i,
    {
        let c = s.get_char(i);
        let cu = c as u32;
        let d: u32 = if cu >= 48 && cu <= 57 {
            cu - 48
        } else if cu >= 97 && cu <= 102 {
            cu - 97 + 10
        } else if cu >= 65 && cu <= 70 {
            cu - 65 + 10
        } else {
            assert(!is_hex_digit(s@[i as int]));
            return None;
        };
        proof {
            assert(s@.take(i + 1).drop_last() =~= s@.take(i as int));
            assert(s@.take(i + 1).last() == s@[i as int]);
            assert(0 <= hex_value(s@.take(i as int)) <= 0xfff) by {
                lemma_hex_value_bound(s@.take(i as int));
            }
        }
        acc = acc * 16 + d;
        i += 1;
    }
    proof {
        assert(s@.take(n as int) =~= s@);
        lemma_hex_value_bound(s@);
    }
    Some(acc as u16)
}

/// How many parts of a split are empty.
pub open spec fn count_empty(parts: Seq<Seq<char>>) -> int
    decreases parts.len(),
{
    if parts.len() == 0 {
        0
    } else {
        count_empty(parts.drop_last()) + if parts.last().len() == 0 {
            1int
        } else {
            0int
        }
    }
}

/// The index of the first empty part, or the number of parts if none is.
pub open spec fn first_empty(parts: Seq<Seq<char>>) -> int
    decreases parts.len(),
{
    if parts.len() == 0 {
        0
    } else {
        let f = first_empty(parts.drop_last());
        if f < parts.len() - 1 {
            f
        } else if parts.last().len() == 0 {
            parts.len() - 1
        } else {
            parts.len() as int
        }
    }
}

/// Where a literal elides zero groups with a double colon, the parts of the
/// colon split fall into a head run, the elision's empties, and a tail run.
/// Yields those two runs, or nothing when the empty parts form no legal
/// elision pattern.
pub open spec fn elision_split(parts: Seq<Seq<char>>) -> Option<(Seq<Seq<char>>, Seq<Seq<char>>)> {
    let n = parts.len() as int;
    let e = count_empty(parts);
    let f = first_empty(parts);
    if e == 3 && n == 3 && f == 0 && parts[1].len() == 0 && parts[2].len() == 0 {
        Some((Seq::<Seq<char>>::empty(), Seq::<Seq<char>>::empty()))
    } else if e == 2 && n >= 3 && f == 0 && parts[1].len() == 0 {
        Some((Seq::<Seq<char>>::empty(), parts.skip(2)))
    } else if e == 2 && n >= 3 && parts[n - 2].len() == 0 && parts[n - 1].len() == 0 {
        Some((parts.take(n - 2), Seq::<Seq<char>>::empty()))
    } else if e == 1 && 1 <= f <= n - 2 {
        Some((parts.take(f), parts.skip(f + 1)))
    } else {
        None
    }
}

/// Group values of a head run: every part must be a hex group.
pub open spec fn head_group_values(parts: Seq<Seq<char>>) -> Option<Seq<int>>
    decreases parts.len(),
{
    if parts.len() == 0 {
        Some(Seq::<int>::empty())
    } else if is_h16(parts[0]) {
        match head_group_values(parts.drop_first()) {
            Some(g) => Some(seq![hex_value(parts[0])] + g),
            None => None,
        }
    } else {
        None
    }
}

/// Group values of a tail run: every part a hex group, except that the last
/// may be an embedded dotted-quad IPv4 literal, which stands for two groups.
pub open spec fn tail_group_values(parts: Seq<Seq<char>>) -> Option<Seq<int>>
    decreases parts.len(),
{
    if parts.len() == 0 {
        Some(Seq::<int>::empty())
    } else if parts.len() == 1 {
        if is_h16(parts[0]) {
            Some(seq![hex_value(parts[0])])
        } else {
            match spec_parse_ipv4(parts[0]) {
                Some(v) => Some(seq![v as int / 0x10000, v as int % 0x10000]),
                None => None,
            }
        }
    } else if is_h16(parts[0]) {
        match tail_group_values(parts.drop_first()) {
            Some(g) => Some(seq![hex_value(parts[0])] + g),
            None => None,
        }
    } else {
        None
    }
}

/// A run of zero-valued groups.
pub open spec fn zero_groups(k: int) -> Seq<int> {
    Seq::new(k as nat, |i: int| 0int)
}

/// The value of eight sixteen-bit groups, most significant first.
pub open spec fn groups_val8(g: Seq<int>) -> int {
    g[0] * 0x10000000000000000000000000000 + g[1] * 0x1000000000000000000000000 + g[2]
        * 0x100000000000000000000 + g[3] * 0x10000000000000000 + g[4] * 0x1000000000000 + g[5]
        * 0x100000000 + g[6] * 0x10000 + g[7]
}

/// The character sequences of a vector of strings.
pub open spec fn views_of(parts: Seq<String>) -> Seq<Seq<char>> {
    parts.map_values(|p: String| p@)
}

/// Counts the empty parts and finds the first one.
fn scan_empties(parts: &Vec<String>) -> (r: (usize, usize))
    ensures
        r.0 == count_empty(views_of(parts@)),
        r.1 == first_empty(views_of(parts@)),
{
    let n = parts.len();
    let mut c: usize = 0;
    let mut f: usize = 0;
    let mut i: usize = 0;
    proof {
        assert(views_of(parts@).take(0) =~= Seq::<Seq<char>>::empty());
    }
    while i < n
        invariant
            n == parts@.len(),
            i <= n,
            c <= i,
            f <= i,
            c == count_empty(views_of(parts@).take(i as int)),
            f == first_empty(views_of(parts@).take(i as int)),
        decreases n - i,
    {
        proof {
            assert(views_of(parts@).take(i + 1).drop_last() =~= views_of(parts@).take(i as int));
            assert(views_of(parts@).take(i + 1).last() == parts@[i as int]@);
        }
        if parts[i].as_str().is_empty() {
            c += 1;
        } else {
            if f == i {
                f = i + 1;
            }
        }
        i += 1;
    }
    proof {
        assert(views_of(parts@).take(n as int) =~= views_of(parts@));
    }
    (c, f)
}

/// Parses a head run of hex groups from `parts[from..to]`.
fn head_groups(parts: &Vec<String>, from: usize, to: usize) -> (r: Option<Vec<u16>>)
    requires
        from <= to <= parts@.len(),
    ensures
        match r {
            Some(g) => head_group_values(views_of(parts@).subrange(from as int, to as int))
                == Some(g@.map_values(|x: u16| x as int)),
            None => head_group_values(
                views_of(parts@).subrange(from as int, to as int),
            ) is None,
        },
{
    let mut g: Vec<u16> = Vec::new();
    let mut i = from;
    while i < to
        invariant
            from <= i <= to <= parts@.len(),
            match head_group_values(views_of(parts@).subrange(i as int, to as int)) {
                Some(t) => head_group_values(views_of(parts@).subrange(from as int, to as int))
                    == Some(g@.map_values(|x: u16| x as int) + t),
                None => head_group_values(
                    views_of(parts@).subrange(from as int, to as int),
                ) is None,
            },
        decreases to - i,
    {
        proof {
            assert(views_of(parts@).subrange(i as int, to as int).drop_first() =~= views_of(
                parts@,
            ).subrange(i + 1, to as int));
            assert(views_of(parts@).subrange(i as int, to as int)[0] == parts@[i as int]@);
        }
        match parse_h16(parts[i].as_str()) {
            Some(v) => {
                proof {
                    lemma_hex_value_bound(parts@[i as int]@);
                }
                let ghost old_map = g@.map_values(|x: u16| x as int);
                g.push(v);
                proof {
                    assert(g@.map_values(|x: u16| x as int) =~= old_map.push(v as int));
                    if head_group_values(
                        views_of(parts@).subrange(i + 1, to as int),
                    ) is Some {
                        let t = head_group_values(
                            views_of(parts@).subrange(i + 1, to as int),
                        ).unwrap();
                        assert(old_map.push(v as int) + t =~= old_map + (seq![
                            hex_value(parts@[i as int]@),
                        ] + t));
                    }
                }
            },
            None => {
                return None;
            },
        }
        i += 1;
    }
    proof {
        assert(views_of(parts@).subrange(i as int, to as int) =~= Seq::<Seq<char>>::empty());
        assert(g@.map_values(|x: u16| x as int) + Seq::<int>::empty() =~= g@.map_values(
            |x: u16| x as int,
        ));
    }
    Some(g)
}

/// Parses a tail run from `parts[from..to]`: hex groups, the last part
/// alternatively an embedded IPv4 literal.
fn tail_groups(parts: &Vec<String>, from: usize, to: usize) -> (r: Option<Vec<u16>>)
    requires
        from <= to <= parts@.len(),
    ensures
        match r {
            Some(g) => tail_group_values(views_of(parts@).subrange(from as int, to as int))
                == Some(g@.map_values(|x: u16| x as int)),
            None => tail_group_values(
                views_of(parts@).subrange(from as int, to as int),
            ) is None,
        },
{
    let mut g: Vec<u16> = Vec::new();
    let mut i = from;
    while i < to
        invariant
            from <= i <= to <= parts@.len(),
            match tail_group_values(views_of(parts@).subrange(i as int, to as int)) {
                Some(t) => tail_group_values(views_of(parts@).subrange(from as int, to as int))
                    == Some(g@.map_values(|x: u16| x as int) + t),
                None => tail_group_values(
                    views_of(parts@).subrange(from as int, to as int),
                ) is None,
            },
        decreases to - i,
    {
        proof {
            assert(views_of(parts@).subrange(i as int, to as int).drop_first() =~= views_of(
                parts@,
            ).subrange(i + 1, to as int));
            assert(views_of(parts@).subrange(i as int, to as int)[0] == parts@[i as int]@);
        }
        let ghost old_map = g@.map_values(|x: u16| x as int);
        if i + 1 == to {
            // the last part: a hex group, or an embedded IPv4 literal
            match parse_h16(parts[i].as_str()) {
                Some(v) => {
                    proof {
                        lemma_hex_value_bound(parts@[i as int]@);
                    }
                    g.push(v);
                    proof {
                        assert(g@.map_values(|x: u16| x as int) =~= old_map + seq![
                            hex_value(parts@[i as int]@),
                        ]);
                    }
                },
                None => match parse_ipv4_literal(parts[i].as_str()) {
                    Some(v) => {
                        g.push((v / 0x10000) as u16);
                        g.push((v % 0x10000) as u16);
                        proof {
                            assert(g@.map_values(|x: u16| x as int) =~= old_map + seq![
                                v as int / 0x10000,
                                v as int % 0x10000,
                            ]);
                        }
                    },
                    None => {
                        return None;
                    },
                },
            }
            i += 1;
        } else {
            match parse_h16(parts[i].as_str()) {
                Some(v) => {
                    proof {
                        lemma_hex_value_bound(parts@[i as int]@);
                    }
                    g.push(v);
                    proof {
                        assert(g@.map_values(|x: u16| x as int) =~= old_map.push(v as int));
                        if tail_group_values(
                            views_of(parts@).subrange(i + 1, to as int),
                        ) is Some {
                            let t = tail_group_values(
                                views_of(parts@).subrange(i + 1, to as int),
                            ).unwrap();
                            assert(old_map.push(v as int) + t =~= old_map + (seq![
                                hex_value(parts@[i as int]@),
                            ] + t));
                        }
                    }
                },
                None => {
                    return None;
                },
            }
            i += 1;
        }
    }
    proof {
        assert(views_of(parts@).subrange(i as int, to as int) =~= Seq::<Seq<char>>::empty());
        assert(g@.map_values(|x: u16| x as int) + Seq::<int>::empty() =~= g@.map_values(
            |x: u16| x as int,
        ));
    }
    Some(g)
}

/// The value of eight collected groups.
fn groups_value(g: &Vec<u16>) -> (r: u128)
    requires
        g@.len() == 8,
    ensures
        r as int == groups_val8(g@.map_values(|x: u16| x as int)),
{
    proof {
        assert(g@.map_values(|x: u16| x as int)[0] == g@[0] as int);
        assert(g@.map_values(|x: u16| x as int)[1] == g@[1] as int);
        assert(g@.map_values(|x: u16| x as int)[2] == g@[2] as int);
        assert(g@.map_values(|x: u16| x as int)[3] == g@[3] as int);
        assert(g@.map_values(|x: u16| x as int)[4] == g@[4] as int);
        assert(g@.map_values(|x: u16| x as int)[5] == g@[5] as int);
        assert(g@.map_values(|x: u16| x as int)[6] == g@[6] as int);
        assert(g@.map_values(|x: u16| x as int)[7] == g@[7] as int);
    }
    (g[0] as u128) * 0x10000000000000000000000000000 + (g[1] as u128) * 0x1000000000000000000000000
        + (g[2] as u128) * 0x100000000000000000000 + (g[3] as u128) * 0x10000000000000000 + (
    g[4] as u128) * 0x1000000000000 + (g[5] as u128) * 0x100000000 + (g[6] as u128) * 0x10000 + (
    g[7] as u128)
}

/// The grammar of IPv6 literals: colon-separated hex groups, at most one
/// double-colon elision, an optional embedded IPv4 tail, ASCII.
pub open spec fn spec_parse_ipv6(s: Seq<char>) -> Option<u128> {
    if !is_ascii_chars(s) {
        None
    } else {
        let parts = split_on(s, ':');
        if count_empty(parts) == 0 {
            match tail_group_values(parts) {
                Some(g) => if g.len() == 8 {
                    Some(groups_val8(g) as u128)
                } else {
                    None
                },
                None => None,
            }
        } else {
            match elision_split(parts) {
                Some((left, right)) => match (head_group_values(left), tail_group_values(right)) {
                    (Some(lg), Some(rg)) => if lg.len() + rg.len() <= 7 {
                        Some(
                            groups_val8(
                                lg + zero_groups(8 - lg.len() - rg.len()) + rg,
                            ) as u128,
                        )
                    } else {
                        None
                    },
                    _ => None,
                },
                None => None,
            }
        }
    }
}

/// Parses an IPv6 literal.
pub fn parse_ipv6_literal(s: &str) -> (r: Option<u128>)
    ensures
        r == spec_parse_ipv6(s@),
{
    if !s.is_ascii() {
        return None;
    }
    let parts = split_str(s, ':');
    let n = parts.len();
    proof {
        lemma_split_on_len(s@, ':');
    }
    let counts = scan_empties(&parts);
    let ecount = counts.0;
    let efirst = counts.1;
    if ecount == 0 {
        proof {
            assert(views_of(parts@).subrange(0, n as int) =~= views_of(parts@));
        }
        match tail_groups(&parts, 0, n) {
            Some(g) => {
                if g.len() == 8 {
                    Some(groups_value(&g))
                } else {
                    None
                }
            },
            None => None,
        }
    } else {
        let lf: usize;
        let lt: usize;
        let rf: usize;
        let rt: usize;
        if ecount == 3 && n == 3 && efirst == 0 && parts[1].as_str().is_empty()
            && parts[2].as_str().is_empty() {
            lf = 0;
            lt = 0;
            rf = 0;
            rt = 0;
        } else if ecount == 2 && n >= 3 && efirst == 0 && parts[1].as_str().is_empty() {
            lf = 0;
            lt = 0;
            rf = 2;
            rt = n;
        } else if ecount == 2 && n >= 3 && parts[n - 2].as_str().is_empty()
            && parts[n - 1].as_str().is_empty() {
            lf = 0;
            lt = n - 2;
            rf = 0;
            rt = 0;
        } else if ecount == 1 && 1 <= efirst && n >= 2 && efirst <= n - 2 {
            lf = 0;
            lt = efirst;
            rf = efirst + 1;
            rt = n;
        } else {
            return None;
        }
        let ghost (sleft, sright) = elision_split(views_of(parts@)).unwrap();
        proof {
            assert(views_of(parts@).subrange(lf as int, lt as int) =~= sleft);
            assert(views_of(parts@).subrange(rf as int, rt as int) =~= sright);
        }
        let mut lg = match head_groups(&parts, lf, lt) {
            Some(g) => g,
            None => {
                return None;
            },
        };
        let mut rg = match tail_groups(&parts, rf, rt) {
            Some(g) => g,
            None => {
                return None;
            },
        };
        if lg.len() > 7 || rg.len() > 7 || lg.len() + rg.len() > 7 {
            return None;
        }
        let ghost lg_map = lg@.map_values(|x: u16| x as int);
        let ghost rg_map = rg@.map_values(|x: u16| x as int);
        let k = 8 - lg.len() - rg.len();
        let mut zeros: Vec<u16> = Vec::new();
        let mut z: usize = 0;
        while z < k
            invariant
                z <= k,
                zeros@.len() == z,
                forall|t: int| 0 <= t < z ==> zeros@[t] == 0u16,
            decreases k - z,
        {
            zeros.push(0);
            z += 1;
        }
        let mut all = lg;
        all.append(&mut zeros);
        all.append(&mut rg);
        proof {
            assert(all@.map_values(|x: u16| x as int) =~= lg_map + zero_groups(k as int)
                + rg_map);
        }
        Some(groups_value(&all))
    }
}

} // verus!
