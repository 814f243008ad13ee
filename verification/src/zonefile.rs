//! The zone-file format: one `<domain>=<ipv4>` entry per line.
//!
//! Lines that are empty after trimming, or whose first character is `#`, are
//! ignored. Every other line must split at `=` into exactly two fields, the
//! second a dotted-quad IPv4 address; one bad line rejects the whole load,
//! naming the offending text. The resulting pair list feeds
//! `DnsAuthority::new` in file order, so a domain listed twice keeps the
//! later address.

use vstd::prelude::*;

use crate::Ipv4;
use crate::bytes::parts_view;
use crate::bytes::spec_split;
use crate::bytes::spec_trim;
use crate::bytes::split_bytes;
use crate::bytes::trim;
use crate::codec::valid_domain;
use crate::zone::ConfigError;
use crate::zone::ConfigErrorView;
use crate::zone::DnsAuthority;
use crate::zone::first_invalid;
use crate::zone::pairs_view;
use crate::zone::zone_map_of;

verus! {

/// ASCII `#`, the comment marker.
pub const COMMENT_MARK: u8 = 35;

/// ASCII `=`, the field separator of a zone-file entry.
pub const FIELD_SEP: u8 = 61;

/// ASCII line feed, the line separator.
pub const LINE_SEP: u8 = 10;

/// ASCII `.`, the separator of a dotted-quad address.
pub const QUAD_SEP: u8 = 46;

/// An ASCII decimal digit.
pub open spec fn is_digit(b: u8) -> bool {
    48 <= b <= 57
}

/// The number that a run of ASCII digits denotes.
pub open spec fn digits_value(s: Seq<u8>) -> int
    decreases s.len(),
{
    if s.len() == 0 {
        0
    } else {
        digits_value(s.drop_last()) * 10 + (s.last() - 48)
    }
}

/// A valid dotted-quad octet: one to three digits, no leading zero, at most
/// 255.
pub open spec fn is_octet_str(s: Seq<u8>) -> bool {
    &&& 1 <= s.len() <= 3
    &&& forall|j: int| 0 <= j < s.len() ==> is_digit(#[trigger] s[j])
    &&& (s.len() == 1 || s.first() != 48)
    &&& digits_value(s) <= 255
}

/// What a byte string denotes as a dotted-quad IPv4 address: exactly four
/// valid octets separated by `.`, or nothing.
pub open spec fn spec_parse_ipv4(s: Seq<u8>) -> Option<Ipv4> {
    let parts = spec_split(s, QUAD_SEP);
    if parts.len() == 4 && is_octet_str(parts[0]) && is_octet_str(parts[1]) && is_octet_str(
        parts[2],
    ) && is_octet_str(parts[3]) {
        Some(
            Ipv4 {
                a: digits_value(parts[0]) as u8,
                b: digits_value(parts[1]) as u8,
                c: digits_value(parts[2]) as u8,
                d: digits_value(parts[3]) as u8,
            },
        )
    } else {
        None
    }
}

/// What one zone-file line contributes: nothing for a comment or blank line,
/// a `(domain, address)` pair for an entry, or the error it deserves.
pub open spec fn spec_parse_line(line: Seq<u8>) -> Result<
    Option<(Seq<u8>, Ipv4)>,
    ConfigErrorView,
> {
    let t = spec_trim(line);
    if t.len() == 0 || t.first() == COMMENT_MARK {
        Ok(None)
    } else {
        let fields = spec_split(t, FIELD_SEP);
        if fields.len() != 2 {
            Err(ConfigErrorView::MalformedLine(t))
        } else {
            let addr_s = spec_trim(fields[1]);
            match spec_parse_ipv4(addr_s) {
                Some(a) => Ok(Some((spec_trim(fields[0]), a))),
                None => Err(ConfigErrorView::InvalidAddress(addr_s)),
            }
        }
    }
}

/// What a sequence of lines loads to: the pairs of its entries in order, or
/// the error of the first offending line.
pub open spec fn spec_parse_lines(lines: Seq<Seq<u8>>) -> Result<
    Seq<(Seq<u8>, Ipv4)>,
    ConfigErrorView,
>
    decreases lines.len(),
{
    if lines.len() == 0 {
        Ok(Seq::empty())
    } else {
        match spec_parse_lines(lines.drop_last()) {
            Err(e) => Err(e),
            Ok(pairs) => match spec_parse_line(lines.last()) {
                Err(e) => Err(e),
                Ok(None) => Ok(pairs),
                Ok(Some(p)) => Ok(pairs.push(p)),
            },
        }
    }
}

/// What a whole zone file loads to.
pub open spec fn spec_parse_zone(text: Seq<u8>) -> Result<
    Seq<(Seq<u8>, Ipv4)>,
    ConfigErrorView,
> {
    spec_parse_lines(spec_split(text, LINE_SEP))
}

proof fn lemma_parse_error_propagates(lines: Seq<Seq<u8>>, i: int)
    requires
        0 <= i < lines.len(),
        spec_parse_lines(lines.take(i)) is Ok,
        spec_parse_line(lines[i]) is Err,
    ensures
        spec_parse_lines(lines) == Err::<Seq<(Seq<u8>, Ipv4)>, ConfigErrorView>(
            spec_parse_line(lines[i])->Err_0,
        ),
    decreases lines.len(),
{
    let front = lines.drop_last();
    if i < lines.len() - 1 {
        assert(front.take(i) =~~= lines.take(i));
        assert(front[i] == lines[i]);
        lemma_parse_error_propagates(front, i);
    } else {
        assert(front =~~= lines.take(i));
        assert(lines.last() == lines[i]);
    }
}

fn parse_octet(s: &Vec<u8>) -> (r: Option<u8>)
    ensures
        r is Some <==> is_octet_str(s@),
        r is Some ==> r->0 == digits_value(s@),
{
    if s.len() == 0 || s.len() > 3 {
        return None;
    }
    if s.len() > 1 && s[0] == 48 {
        return None;
    }
    let mut val: u32 = 0;
    let mut i: usize = 0;
    proof {
        assert(s@.take(0) =~= Seq::<u8>::empty());
    }
    while i < s.len()
        invariant
            i <= s@.len() <= 3,
            forall|j: int| 0 <= j < i ==> is_digit(#[trigger] s@[j]),
            val == digits_value(s@.take(i as int)),
            val <= 999,
        decreases s@.len() - i,
    {
        let b = s[i];
        if b < 48 || b > 57 {
            return None;
        }
        proof {
            assert(s@.take(i + 1).drop_last() =~= s@.take(i as int));
            assert(s@.take(i + 1).last() == s@[i as int]);
            assert(digits_value(s@.take(i + 1)) == digits_value(s@.take(i as int)) * 10 + (
            s@[i as int] - 48));
            assert forall|j: int| 0 <= j < s@.take(i as int).len() implies is_digit(
                #[trigger] s@.take(i as int)[j],
            ) by {
                assert(s@.take(i as int)[j] == s@[j]);
            }
            lemma_digits_value_bound(s@.take(i as int));
        }
        val = val * 10 + ((b - 48) as u32);
        i = i + 1;
    }
    proof {
        assert(s@.take(s@.len() as int) =~= s@);
    }
    if val > 255 {
        return None;
    }
    Some(val as u8)
}

proof fn lemma_digits_value_bound(s: Seq<u8>)
    requires
        forall|j: int| 0 <= j < s.len() ==> is_digit(#[trigger] s[j]),
    ensures
        0 <= digits_value(s),
        s.len() <= 1 ==> digits_value(s) <= 9,
        s.len() <= 2 ==> digits_value(s) <= 99,
        s.len() <= 3 ==> digits_value(s) <= 999,
    decreases s.len(),
{
    if s.len() > 0 {
        assert forall|j: int| 0 <= j < s.drop_last().len() implies is_digit(
            #[trigger] s.drop_last()[j],
        ) by {
            assert(s.drop_last()[j] == s[j]);
        }
        lemma_digits_value_bound(s.drop_last());
        assert(is_digit(s.last()));
    }
}

/// Parses a dotted-quad IPv4 address, per `spec_parse_ipv4`.
pub fn parse_ipv4(s: &Vec<u8>) -> (r: Option<Ipv4>)
    ensures
        r == spec_parse_ipv4(s@),
{
    let parts = split_bytes(s, QUAD_SEP);
    proof {
        assert(parts_view(parts@).len() == parts@.len());
    }
    if parts.len() != 4 {
        return None;
    }
    proof {
        assert forall|k: int| 0 <= k < 4 implies #[trigger] parts_view(parts@)[k]
            == parts@[k]@ by {}
    }
    let a = match parse_octet(&parts[0]) {
        Some(x) => x,
        None => {
            return None;
        },
    };
    let b = match parse_octet(&parts[1]) {
        Some(x) => x,
        None => {
            return None;
        },
    };
    let c = match parse_octet(&parts[2]) {
        Some(x) => x,
        None => {
            return None;
        },
    };
    let d = match parse_octet(&parts[3]) {
        Some(x) => x,
        None => {
            return None;
        },
    };
    Some(Ipv4 { a, b, c, d })
}

/// Parses the text of a zone file into the ordered `(domain, address)` pair
/// list it denotes, per `spec_parse_zone`, or fails with a configuration
/// error naming the first offending line.
pub fn parse_zone_text(text: &Vec<u8>) -> (r: Result<Vec<(Vec<u8>, Ipv4)>, ConfigError>)
    ensures
        r is Ok <==> spec_parse_zone(text@) is Ok,
        r is Ok ==> pairs_view(r->Ok_0@) == spec_parse_zone(text@)->Ok_0,
        r is Err ==> r->Err_0@ == spec_parse_zone(text@)->Err_0,
{
    let lines = split_bytes(text, LINE_SEP);
    let ghost lv = spec_split(text@, LINE_SEP);
    let mut pairs: Vec<(Vec<u8>, Ipv4)> = Vec::new();
    let mut i: usize = 0;
    proof {
        assert(lv.take(0) =~~= Seq::<Seq<u8>>::empty());
        assert(pairs_view(pairs@) =~= Seq::<(Seq<u8>, Ipv4)>::empty());
        assert(parts_view(lines@).len() == lines@.len());
    }
    while i < lines.len()
        invariant
            i <= lines@.len(),
            lv == spec_split(text@, LINE_SEP),
            lv == parts_view(lines@),
            lv.len() == lines@.len(),
            spec_parse_lines(lv.take(i as int)) == Ok::<_, ConfigErrorView>(pairs_view(pairs@)),
        decreases lines@.len() - i,
    {
        proof {
            assert(lv.take(i + 1).drop_last() =~~= lv.take(i as int));
            assert(lv.take(i + 1).last() == lv[i as int]);
            assert(lv[i as int] == lines@[i as int]@);
        }
        let t = trim(&lines[i]);
        let skip_line = t.len() == 0 || t[0] == COMMENT_MARK;
        if !skip_line {
            let fields = split_bytes(&t, FIELD_SEP);
            proof {
                assert(parts_view(fields@).len() == fields@.len());
            }
            if fields.len() != 2 {
                proof {
                    assert(t@ == spec_trim(lv[i as int]));
                    assert(spec_parse_line(lv[i as int]) == Err::<
                        Option<(Seq<u8>, Ipv4)>,
                        ConfigErrorView,
                    >(ConfigErrorView::MalformedLine(t@)));
                    lemma_parse_error_propagates(lv, i as int);
                }
                return Err(ConfigError::MalformedLine(t));
            }
            proof {
                assert(parts_view(fields@)[0] == fields@[0]@);
                assert(parts_view(fields@)[1] == fields@[1]@);
            }
            let domain = trim(&fields[0]);
            let addr_s = trim(&fields[1]);
            match parse_ipv4(&addr_s) {
                None => {
                    proof {
                        assert(t@ == spec_trim(lv[i as int]));
                        assert(addr_s@ == spec_trim(spec_split(t@, FIELD_SEP)[1]));
                        assert(spec_parse_line(lv[i as int]) == Err::<
                            Option<(Seq<u8>, Ipv4)>,
                            ConfigErrorView,
                        >(ConfigErrorView::InvalidAddress(addr_s@)));
                        lemma_parse_error_propagates(lv, i as int);
                    }
                    return Err(ConfigError::InvalidAddress(addr_s));
                },
                Some(addr) => {
                    let ghost prev = pairs@;
                    let ghost dv = domain@;
                    pairs.push((domain, addr));
                    proof {
                        assert(pairs_view(pairs@) =~~= pairs_view(prev).push((dv, addr))) by {
                            assert forall|j: int| 0 <= j < pairs@.len() implies #[trigger]
                                pairs_view(pairs@)[j] == pairs_view(prev).push((dv, addr))[j] by {
                                assert(pairs_view(pairs@)[j] == (pairs@[j].0@, pairs@[j].1));
                                if j < pairs@.len() - 1 {
                                    assert(pairs@[j] == prev[j]);
                                    assert(pairs_view(prev)[j] == (prev[j].0@, prev[j].1));
                                }
                            }
                        }
                    }
                },
            }
        }
        i = i + 1;
        proof {
            assert(spec_parse_lines(lv.take(i as int)) == Ok::<_, ConfigErrorView>(
                pairs_view(pairs@),
            ));
        }
    }
    proof {
        assert(lv.take(i as int) =~~= lv);
    }
    Ok(pairs)
}

/// Loads a whole zone from zone-file text: parses the entries and builds the
/// authoritative table, failing with the first configuration error — a bad
/// line, a bad address, or an entry whose domain is not valid DNS syntax.
pub fn load_zone(text: &Vec<u8>) -> (r: Result<DnsAuthority, ConfigError>)
    ensures
        spec_parse_zone(text@) is Err ==> r is Err && r->Err_0@ == spec_parse_zone(text@)->Err_0,
        spec_parse_zone(text@) is Ok ==> {
            let pairs = spec_parse_zone(text@)->Ok_0;
            &&& (r is Ok <==> forall|i: int|
                0 <= i < pairs.len() ==> valid_domain(#[trigger] pairs[i].0))
            &&& (r is Ok ==> r->Ok_0@ == zone_map_of(pairs))
            &&& (r is Err ==> r->Err_0@ == ConfigErrorView::InvalidDomain(
                pairs[first_invalid(pairs)].0,
            ))
        },
{
    let pairs = match parse_zone_text(text) {
        Ok(pairs) => pairs,
        Err(e) => {
            return Err(e);
        },
    };
    DnsAuthority::new(pairs)
}

} // verus!
