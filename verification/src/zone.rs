//! The zone table: the immutable mapping from domain name to IPv4 address
//! that this server is authoritative for.
//!
//! The table is built once at startup from an ordered list of
//! `(domain, address)` pairs and never mutated afterwards. Its mathematical
//! model is a map from the domain's bytes to the address; when the input
//! lists a domain twice, the later pair wins.

use vstd::prelude::*;

use crate::Ipv4;
use crate::bytes::bytes_eq;
use crate::bytes::clone_bytes;
use crate::codec::valid_domain;
use crate::codec::domain_is_valid;

verus! {

/// A startup configuration failure: the zone cannot be loaded or built.
#[derive(Debug)]
pub enum ConfigError {
    /// A domain name in the zone is not valid DNS name syntax.
    InvalidDomain(Vec<u8>),
    /// A zone-file line is not of the form `<domain>=<ipv4>`.
    MalformedLine(Vec<u8>),
    /// The address field of a zone-file line is not a dotted-quad IPv4 address.
    InvalidAddress(Vec<u8>),
}

pub enum ConfigErrorView {
    InvalidDomain(Seq<u8>),
    MalformedLine(Seq<u8>),
    InvalidAddress(Seq<u8>),
}

impl View for ConfigError {
    type V = ConfigErrorView;

    open spec fn view(&self) -> ConfigErrorView {
        match self {
            ConfigError::InvalidDomain(d) => ConfigErrorView::InvalidDomain(d@),
            ConfigError::MalformedLine(l) => ConfigErrorView::MalformedLine(l@),
            ConfigError::InvalidAddress(a) => ConfigErrorView::InvalidAddress(a@),
        }
    }
}

/// The map that an ordered list of pairs denotes: pairs are added in order,
/// a later pair overwriting an earlier one with the same domain.
pub open spec fn zone_map_of(pairs: Seq<(Seq<u8>, Ipv4)>) -> Map<Seq<u8>, Ipv4>
    decreases pairs.len(),
{
    if pairs.len() == 0 {
        Map::empty()
    } else {
        zone_map_of(pairs.drop_last()).insert(pairs.last().0, pairs.last().1)
    }
}

/// The views of an exec list of pairs.
pub open spec fn pairs_view(names: Seq<(Vec<u8>, Ipv4)>) -> Seq<(Seq<u8>, Ipv4)> {
    names.map_values(|p: (Vec<u8>, Ipv4)| (p.0@, p.1))
}

/// The index of the first pair whose domain is not valid DNS name syntax,
/// or the length of the list when every domain is valid.
pub open spec fn first_invalid(pairs: Seq<(Seq<u8>, Ipv4)>) -> int
    decreases pairs.len(),
{
    if pairs.len() == 0 {
        0
    } else if !valid_domain(pairs.first().0) {
        0
    } else {
        1 + first_invalid(pairs.drop_first())
    }
}

proof fn lemma_first_invalid_is(pairs: Seq<(Seq<u8>, Ipv4)>, i: int)
    requires
        0 <= i < pairs.len(),
        forall|j: int| 0 <= j < i ==> valid_domain(#[trigger] pairs[j].0),
        !valid_domain(pairs[i].0),
    ensures
        first_invalid(pairs) == i,
    decreases i,
{
    if i == 0 {
        assert(pairs.first() == pairs[0]);
    } else {
        assert(valid_domain(pairs.first().0)) by {
            assert(pairs.first() == pairs[0]);
        }
        assert forall|j: int| 0 <= j < i - 1 implies valid_domain(
            #[trigger] pairs.drop_first()[j].0,
        ) by {
            assert(pairs.drop_first()[j] == pairs[j + 1]);
        }
        assert(pairs.drop_first()[i - 1] == pairs[i]);
        lemma_first_invalid_is(pairs.drop_first(), i - 1);
    }
}

/// Law: a pair added to the zone overwrites whatever an earlier pair said of
/// the same domain — the documented last-write-wins policy of zone loading.
pub proof fn lemma_last_write_wins(pairs: Seq<(Seq<u8>, Ipv4)>, p: (Seq<u8>, Ipv4))
    ensures
        zone_map_of(pairs.push(p)) == zone_map_of(pairs).insert(p.0, p.1),
{
    assert(pairs.push(p).drop_last() =~~= pairs);
    assert(pairs.push(p).last() == p);
}

/// The authoritative zone table: built once, then only read.
#[derive(Debug)]
pub struct DnsAuthority {
    entries: Vec<(Vec<u8>, Ipv4)>,
}

impl View for DnsAuthority {
    type V = Map<Seq<u8>, Ipv4>;

    closed spec fn view(&self) -> Map<Seq<u8>, Ipv4> {
        zone_map_of(pairs_view(self.entries@))
    }
}

impl DnsAuthority {
    /// Builds the zone table from an ordered list of `(domain, address)`
    /// pairs. Every domain must be valid DNS name syntax; one invalid domain
    /// rejects the whole startup rather than silently dropping an entry.
    /// A domain listed twice keeps the later address (last write wins).
    pub fn new(names: Vec<(Vec<u8>, Ipv4)>) -> (r: Result<DnsAuthority, ConfigError>)
        ensures
            r is Ok <==> forall|i: int|
                0 <= i < names@.len() ==> valid_domain(#[trigger] pairs_view(names@)[i].0),
            r is Ok ==> r->Ok_0@ == zone_map_of(pairs_view(names@)),
            r is Err ==> r->Err_0@ == ConfigErrorView::InvalidDomain(
                pairs_view(names@)[first_invalid(pairs_view(names@))].0,
            ),
    {
        let ghost all = pairs_view(names@);
        let mut entries: Vec<(Vec<u8>, Ipv4)> = Vec::new();
        let mut i: usize = 0;
        proof {
            assert(pairs_view(entries@) =~~= all.take(0));
        }
        while i < names.len()
            invariant
                i <= names@.len(),
                all == pairs_view(names@),
                pairs_view(entries@) == all.take(i as int),
                forall|j: int| 0 <= j < i ==> valid_domain(#[trigger] all[j].0),
            decreases names@.len() - i,
        {
            let domain = clone_bytes(&names[i].0);
            let addr = names[i].1;
            proof {
                assert(all[i as int] == (names@[i as int].0@, names@[i as int].1));
            }
            if !domain_is_valid(&domain) {
                proof {
                    assert(!valid_domain(all[i as int].0));
                    lemma_first_invalid_is(all, i as int);
                }
                return Err(ConfigError::InvalidDomain(domain));
            }
            let ghost prev = entries@;
            let ghost d = domain@;
            entries.push((domain, addr));
            i = i + 1;
            proof {
                assert(pairs_view(prev).len() == prev.len());
                assert(prev.len() == i - 1);
                assert forall|j: int| 0 <= j < entries@.len() implies #[trigger] pairs_view(
                    entries@,
                )[j] == all.take(i as int)[j] by {
                    assert(pairs_view(entries@)[j] == (entries@[j].0@, entries@[j].1));
                    if j < i - 1 {
                        assert(entries@[j] == prev[j]);
                        assert(pairs_view(prev)[j] == (prev[j].0@, prev[j].1));
                        assert(pairs_view(prev)[j] == all[j]);
                    } else {
                        assert(entries@[j].0@ == d && entries@[j].1 == addr);
                        assert(all[j] == (names@[j].0@, names@[j].1));
                    }
                }
                assert(pairs_view(entries@) =~~= all.take(i as int));
            }
        }
        proof {
            assert(pairs_view(entries@) =~~= all);
        }
        Ok(DnsAuthority { entries })
    }

    /// Pure, case-sensitive exact lookup of a domain in the zone.
    pub fn lookup(&self, name: &Vec<u8>) -> (r: Option<Ipv4>)
        ensures
            r == (if self@.contains_key(name@) {
                Some(self@[name@])
            } else {
                None::<Ipv4>
            }),
    {
        let ghost pairs = pairs_view(self.entries@);
        let mut i: usize = self.entries.len();
        proof {
            assert(pairs.take(i as int) =~~= pairs);
        }
        while i > 0
            invariant
                i <= self.entries@.len(),
                pairs == pairs_view(self.entries@),
                self@.contains_key(name@) == zone_map_of(pairs.take(i as int)).contains_key(
                    name@,
                ),
                self@.contains_key(name@) ==> self@[name@] == zone_map_of(
                    pairs.take(i as int),
                )[name@],
            decreases i,
        {
            i = i - 1;
            proof {
                assert(pairs.take(i + 1).drop_last() =~~= pairs.take(i as int));
                assert(pairs.take(i + 1).last() == pairs[i as int]);
                assert(pairs[i as int] == (self.entries@[i as int].0@, self.entries@[i as int].1));
                assert(zone_map_of(pairs.take(i + 1)) == zone_map_of(pairs.take(i as int)).insert(
                    pairs[i as int].0,
                    pairs[i as int].1,
                ));
            }
            if bytes_eq(&self.entries[i].0, name) {
                return Some(self.entries[i].1);
            }
        }
        proof {
            assert(pairs.take(0) =~~= Seq::<(Seq<u8>, Ipv4)>::empty());
            assert(!zone_map_of(pairs.take(0)).contains_key(name@));
        }
        None
    }
}

} // verus!
