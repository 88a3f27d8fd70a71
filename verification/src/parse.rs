//! Parsing of proxy address strings of the form `scheme://host:port[/]`.
//! A string must hold exactly one `://` and, after it, exactly one `:`;
//! slashes in the port part are dropped and the rest must be a decimal
//! port. A malformed string parses to nothing and is skipped by callers.

use vstd::prelude::*;

verus! {

use vstd::string::StrSliceExecFns;

/// The scheme separator `://` starts at position `k`.
pub open spec fn sep_at(s: Seq<char>, k: int) -> bool {
    0 <= k && k + 3 <= s.len() && s[k] == ':' && s[k + 1] == '/' && s[k + 2] == '/'
}

/// The first position at or past `from` where `://` starts, or -1.
pub open spec fn spec_find_sep(s: Seq<char>, from: int) -> int
    decreases s.len() - from,
    when 0 <= from <= s.len()
{
    if from + 3 > s.len() {
        -1
    } else if sep_at(s, from) {
        from
    } else {
        spec_find_sep(s, from + 1)
    }
}

/// A colon stands at position `k`.
pub open spec fn colon_at(s: Seq<char>, k: int) -> bool {
    0 <= k < s.len() && s[k] == ':'
}

/// The first position at or past `from` holding a colon, or -1.
pub open spec fn spec_find_colon(s: Seq<char>, from: int) -> int
    decreases s.len() - from,
    when 0 <= from <= s.len()
{
    if from >= s.len() {
        -1
    } else if colon_at(s, from) {
        from
    } else {
        spec_find_colon(s, from + 1)
    }
}

/// An ASCII decimal digit.
pub open spec fn is_digit(c: char) -> bool {
    '0' <= c && c <= '9'
}

/// The value of a string of decimal digits, most significant first.
pub open spec fn spec_digits_value(p: Seq<char>) -> int
    decreases p.len(),
{
    if p.len() == 0 {
        0
    } else {
        spec_digits_value(p.drop_last()) * 10 + (p.last() as int - '0' as int)
    }
}

/// The port a port-part denotes: after dropping every slash it must be
/// non-empty, all digits, and at most 65535.
pub open spec fn spec_parse_port(raw: Seq<char>) -> Option<u16> {
    let p = raw.filter(|c: char| c != '/');
    if p.len() == 0 {
        Option::None
    } else if !(forall|i: int| 0 <= i < p.len() ==> is_digit(#[trigger] p[i])) {
        Option::None
    } else if spec_digits_value(p) > 65535 {
        Option::None
    } else {
        Option::Some(spec_digits_value(p) as u16)
    }
}

/// What an address string parses to: (scheme, host, port), or nothing when
/// it is malformed.
pub open spec fn spec_parse_address(s: Seq<char>) -> Option<(Seq<char>, Seq<char>, u16)> {
    let i = spec_find_sep(s, 0);
    if i < 0 {
        Option::None
    } else if spec_find_sep(s, i + 1) >= 0 {
        Option::None
    } else {
        let schema = s.take(i);
        let rest = s.skip(i + 3);
        let j = spec_find_colon(rest, 0);
        if j < 0 {
            Option::None
        } else if spec_find_colon(rest, j + 1) >= 0 {
            Option::None
        } else {
            match spec_parse_port(rest.skip(j + 1)) {
                Option::None => Option::None,
                Option::Some(port) => Option::Some((schema, rest.take(j), port)),
            }
        }
    }
}

/// Finds the first `://` at or past `from`.
fn find_sep(s: &str, from: usize) -> (r: Option<usize>)
    requires
        from <= s@.len(),
    ensures
        match r {
            Option::Some(i) => spec_find_sep(s@, from as int) == i as int,
            Option::None => spec_find_sep(s@, from as int) == -1,
        },
{
    let n = s.unicode_len();
    let mut i = from;
    while n >= 3 && i <= n - 3
        invariant
            from <= i <= n,
            n == s@.len(),
            spec_find_sep(s@, from as int) == spec_find_sep(s@, i as int),
        decreases n - i,
    {
        if s.get_char(i) == ':' && s.get_char(i + 1) == '/' && s.get_char(i + 2) == '/' {
            return Some(i);
        }
        i = i + 1;
    }
    None
}

/// Finds the first `:` at or past `from`.
fn find_colon(s: &str, from: usize) -> (r: Option<usize>)
    requires
        from <= s@.len(),
    ensures
        match r {
            Option::Some(i) => spec_find_colon(s@, from as int) == i as int,
            Option::None => spec_find_colon(s@, from as int) == -1,
        },
{
    let n = s.unicode_len();
    let mut i = from;
    while i < n
        invariant
            from <= i <= n,
            n == s@.len(),
            spec_find_colon(s@, from as int) == spec_find_colon(s@, i as int),
        decreases n - i,
    {
        if s.get_char(i) == ':' {
            return Some(i);
        }
        i = i + 1;
    }
    None
}

/// A longer run of digits denotes no smaller a value.
proof fn lemma_digits_prefix_le(p: Seq<char>, t: int)
    requires
        0 <= t <= p.len(),
        forall|i: int| 0 <= i < p.len() ==> is_digit(#[trigger] p[i]),
        spec_digits_value(p.take(t)) >= 0,
    ensures
        spec_digits_value(p.take(t)) <= spec_digits_value(p),
    decreases p.len() - t,
{
    if t < p.len() {
        assert(p.take(t + 1).drop_last() =~= p.take(t));
        assert(p.take(t + 1).last() == p[t]);
        assert(spec_digits_value(p.take(t + 1)) == spec_digits_value(p.take(t)) * 10 + (
        p[t] as int - '0' as int));
        assert(p[t] as int - '0' as int >= 0);
        assert(spec_digits_value(p.take(t)) <= spec_digits_value(p.take(t)) * 10 + (
        p[t] as int - '0' as int));
        lemma_digits_prefix_le(p, t + 1);
    } else {
        assert(p.take(t) =~= p);
    }
}

/// Parses the port part: drops slashes, then reads a decimal number.
fn parse_port(s: &str, from: usize) -> (r: Option<u16>)
    requires
        from <= s@.len(),
    ensures
        r == spec_parse_port(s@.skip(from as int)),
{
    let ghost raw = s@.skip(from as int);
    let ghost keep = |c: char| c != '/';
    let ghost p = raw.filter(keep);
    let n = s.unicode_len();
    let mut val: u32 = 0;
    let mut any = false;
    let mut k = from;
    while k < n
        invariant
            from <= k <= n,
            n == s@.len(),
            raw == s@.skip(from as int),
            keep == (|c: char| c != '/'),
            p == raw.filter(keep),
            s@.skip(from as int).take(k - from as int).filter(keep) == raw.take(
                k - from as int,
            ).filter(keep),
            forall|i: int|
                0 <= i < raw.take(k - from as int).filter(keep).len() ==> is_digit(
                    #[trigger] raw.take(k - from as int).filter(keep)[i],
                ),
            any == (raw.take(k - from as int).filter(keep).len() > 0),
            val as int == spec_digits_value(raw.take(k - from as int).filter(keep)),
            val <= 65535,
        decreases n - k,
    {
        let ghost t = k - from as int;
        let ghost pref = raw.take(t).filter(keep);
        let c = s.get_char(k);
        proof {
            assert(raw[t] == s@[k as int]);
            assert(raw.take(t + 1) =~= raw.take(t).push(raw[t]));
            crate::lemma_filter_push(raw.take(t), raw[t], keep);
        }
        if c == '/' {
            proof {
                assert(raw.take(t + 1).filter(keep) == pref);
            }
        } else {
            let u = c as u32;
            if u < 48 || u > 57 {
                // a non-digit, non-slash character survives the slash
                // filter, so the port part is malformed
                proof {
                    assert(raw.take(t + 1).filter(keep) == pref.push(raw[t]));
                    let bad = pref.len() as int;
                    assert(raw.take(t + 1).filter(keep)[bad] == raw[t]);
                    assert(!is_digit(raw[t]));
                    crate::proxies::lemma_filter_take_prefix(raw, keep, t + 1);
                    assert(p =~= raw.take(t + 1).filter(keep) + raw.skip(t + 1).filter(keep));
                    assert(p[bad] == raw[t]);
                }
                return None;
            }
            let d = u - 48;
            val = val * 10 + d;
            any = true;
            proof {
                assert(raw.take(t + 1).filter(keep) == pref.push(raw[t]));
                assert(pref.push(raw[t]).drop_last() =~= pref);
                assert(spec_digits_value(pref.push(raw[t])) == spec_digits_value(pref) * 10 + (
                raw[t] as int - '0' as int));
            }
            if val > 65535 {
                // the digits read so far already exceed the largest port,
                // and more digits can only grow the value
                proof {
                    crate::proxies::lemma_filter_take_prefix(raw, keep, t + 1);
                    assert(p =~= raw.take(t + 1).filter(keep) + raw.skip(t + 1).filter(keep));
                    assert(forall|i: int|
                        0 <= i < raw.take(t + 1).filter(keep).len() ==> #[trigger] p[i]
                            == raw.take(t + 1).filter(keep)[i]);
                    if forall|i: int| 0 <= i < p.len() ==> is_digit(#[trigger] p[i]) {
                        assert(p.take(t + 1 - (t + 1 - raw.take(t + 1).filter(keep).len())) =~= p.take(
                            raw.take(t + 1).filter(keep).len() as int,
                        ));
                        assert(p.take(raw.take(t + 1).filter(keep).len() as int) =~= raw.take(
                            t + 1,
                        ).filter(keep));
                        lemma_digits_prefix_le(p, raw.take(t + 1).filter(keep).len() as int);
                        assert(spec_digits_value(p) > 65535);
                    }
                }
                return None;
            }
        }
        k = k + 1;
    }
    proof {
        assert(raw.take(n - from as int) =~= raw);
    }
    if !any {
        return None;
    }
    Some(val as u16)
}

/// Parses `scheme://host:port[/]` into its parts; a malformed address
/// parses to nothing.
pub fn parse_address(address: &String) -> (r: Option<(String, String, u16)>)
    ensures
        match spec_parse_address(address@) {
            Option::Some(t) => r matches Option::Some(x) && x.0@ == t.0 && x.1@ == t.1 && x.2
                == t.2,
            Option::None => r is None,
        },
{
    let s: &str = address.as_str();
    let n = s.unicode_len();
    let i = match find_sep(s, 0) {
        Some(i) => i,
        None => {
            return None;
        },
    };
    proof {
        lemma_find_sep_found(s@, 0, i as int);
    }
    if find_sep(s, i + 1).is_some() {
        return None;
    }
    let schema = s.substring_char(0, i).to_owned();
    let rest: &str = s.substring_char(i + 3, n);
    proof {
        assert(rest@ =~= address@.skip(i as int + 3));
    }
    let m = rest.unicode_len();
    let j = match find_colon(rest, 0) {
        Some(j) => j,
        None => {
            return None;
        },
    };
    proof {
        lemma_find_colon_found(rest@, 0, j as int);
    }
    if find_colon(rest, j + 1).is_some() {
        return None;
    }
    let host = rest.substring_char(0, j).to_owned();
    let port = match parse_port(rest, j + 1) {
        Some(p) => p,
        None => {
            return None;
        },
    };
    proof {
        assert(schema@ =~= address@.take(i as int));
        assert(host@ =~= rest@.take(j as int));
    }
    Some((schema, host, port))
}

/// A found separator position lies in range and really holds `://`.
proof fn lemma_find_sep_found(s: Seq<char>, from: int, i: int)
    requires
        0 <= from <= s.len(),
        spec_find_sep(s, from) == i,
        i >= 0,
    ensures
        from <= i,
        sep_at(s, i),
        i + 3 <= s.len(),
    decreases s.len() - from,
{
    if from + 3 > s.len() {
    } else if sep_at(s, from) {
    } else {
        lemma_find_sep_found(s, from + 1, i);
    }
}

/// A found colon position lies in range and really holds `:`.
proof fn lemma_find_colon_found(s: Seq<char>, from: int, i: int)
    requires
        0 <= from <= s.len(),
        spec_find_colon(s, from) == i,
        i >= 0,
    ensures
        from <= i,
        colon_at(s, i),
        i < s.len(),
    decreases s.len() - from,
{
    if from >= s.len() {
    } else if colon_at(s, from) {
    } else {
        lemma_find_colon_found(s, from + 1, i);
    }
}

} // verus!
