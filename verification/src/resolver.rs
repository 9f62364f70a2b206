//! The work list of a pass: which address is asked on which node.

use crate::hostfilter::{hostname_matches, is_valid_filter, regex_matches, regex_valid};
use crate::text::{comma_pieces, number_reading, parse_number, split_commas, texts};
use vstd::prelude::*;

verus! {

/// The address of one endpoint: host, colon, port.
pub open spec fn endpoint(host: Seq<char>, port: Seq<char>) -> Seq<char> {
    host + seq![':'] + port
}

/// The endpoints of one host, in the order of the ports.
pub open spec fn host_endpoints(host: Seq<char>, ports: Seq<Seq<char>>) -> Seq<Seq<char>> {
    Seq::new(ports.len(), |j: int| endpoint(host, ports[j]))
}

/// Every host with every port: host by host, and for each host in the order
/// of the ports.
pub open spec fn all_endpoints(hosts: Seq<Seq<char>>, ports: Seq<Seq<char>>) -> Seq<Seq<char>>
    decreases hosts.len(),
{
    if hosts.len() == 0 {
        Seq::empty()
    } else {
        all_endpoints(hosts.drop_last(), ports) + host_endpoints(hosts.last(), ports)
    }
}

/// The endpoints among `endpoints` that pass the filter `pattern`.
pub open spec fn passing(endpoints: Seq<Seq<char>>, pattern: Seq<char>) -> Seq<Seq<char>> {
    endpoints.filter(|address: Seq<char>| regex_matches(pattern, address))
}

/// The work list for a comma-separated list of hosts and one of ports, under
/// the filter `pattern`.
pub open spec fn work_list(hosts: Seq<char>, ports: Seq<char>, pattern: Seq<char>) -> Seq<
    Seq<char>,
> {
    passing(all_endpoints(comma_pieces(hosts), comma_pieces(ports)), pattern)
}

/// Writes the address of one endpoint.
pub fn join_endpoint(host: &str, port: &str) -> (address: String)
    ensures
        address@ == endpoint(host@, port@),
{
    proof {
        reveal_strlit(":");
        assert(":"@ == seq![':']);
    }
    let mut address: String = String::from_str(host);
    address.append(":");
    address.append(port);
    address
}

/// Resolves the hosts and ports that were asked for into the work list of a
/// pass: each host with each port, narrowed to the addresses that pass
/// `hostname_filter`. Nothing is asked of an address that the filter leaves
/// out, and a list that comes out empty is no error.
///
/// `None` where `hostname_filter` is no regular expression.
pub fn resolve_endpoints(hosts: &str, ports: &str, hostname_filter: &str) -> (r: Option<
    Vec<String>,
>)
    ensures
        r is Some <==> regex_valid(hostname_filter@),
        r matches Some(list) ==> texts(list@) == work_list(hosts@, ports@, hostname_filter@),
{
    if !is_valid_filter(hostname_filter) {
        return None;
    }
    let host_list = split_commas(hosts);
    let port_list = split_commas(ports);
    let ghost hs = texts(host_list@);
    let ghost ps = texts(port_list@);
    let ghost passes = |address: Seq<char>| regex_matches(hostname_filter@, address);
    let mut list: Vec<String> = Vec::new();
    proof {
        reveal(Seq::filter);
        assert(hs.take(0) == Seq::<Seq<char>>::empty());
        assert(texts(list@) == all_endpoints(hs.take(0), ps).filter(passes));
    }
    let mut i: usize = 0;
    while i < host_list.len()
        invariant
            i <= host_list.len(),
            regex_valid(hostname_filter@),
            hs == texts(host_list@),
            ps == texts(port_list@),
            passes == |address: Seq<char>| regex_matches(hostname_filter@, address),
            texts(list@) == all_endpoints(hs.take(i as int), ps).filter(passes),
        decreases host_list.len() - i,
    {
        let ghost earlier = all_endpoints(hs.take(i as int), ps);
        let ghost row = host_endpoints(hs[i as int], ps);
        proof {
            reveal(Seq::filter);
            assert(hs.take(i + 1).drop_last() == hs.take(i as int));
            assert(all_endpoints(hs.take(i + 1), ps) == earlier + row);
            assert(row.take(0) == Seq::<Seq<char>>::empty());
            assert(row.take(0).filter(passes) == Seq::<Seq<char>>::empty());
            assert(texts(list@) == earlier.filter(passes) + row.take(0).filter(passes));
        }
        let mut j: usize = 0;
        while j < port_list.len()
            invariant
                i < host_list.len(),
                j <= port_list.len(),
                regex_valid(hostname_filter@),
                hs == texts(host_list@),
                ps == texts(port_list@),
                passes == |address: Seq<char>| regex_matches(hostname_filter@, address),
                row == host_endpoints(hs[i as int], ps),
                texts(list@) == earlier.filter(passes) + row.take(j as int).filter(passes),
            decreases port_list.len() - j,
        {
            let address = join_endpoint(host_list[i].as_str(), port_list[j].as_str());
            let ghost shown = texts(list@);
            proof {
                assert(address@ == row[j as int]);
                assert(row.take(j + 1) == row.take(j as int).push(address@));
                Seq::lemma_filter_push(row.take(j as int), address@, passes);
            }
            let keep: bool = match hostname_matches(hostname_filter, address.as_str()) {
                Some(found) => found,
                None => false,
            };
            if keep {
                list.push(address);
                proof {
                    assert(texts(list@) == shown.push(row[j as int]));
                    assert(texts(list@) == earlier.filter(passes) + row.take(j + 1).filter(
                        passes,
                    ));
                }
            }
            j = j + 1;
        }
        proof {
            assert(row.take(j as int) == row);
            Seq::filter_distributes_over_add(earlier, row, passes);
        }
        i = i + 1;
    }
    assert(hs.take(i as int) == hs);
    Some(list)
}

/// A filter that no address passes leaves an empty work list behind.
pub proof fn lemma_nothing_passes(endpoints: Seq<Seq<char>>, pattern: Seq<char>)
    requires
        forall|i: int| 0 <= i < endpoints.len() ==> !regex_matches(pattern, #[trigger] endpoints[i]),
    ensures
        passing(endpoints, pattern) == Seq::<Seq<char>>::empty(),
    decreases endpoints.len(),
{
    reveal(Seq::filter);
    if endpoints.len() > 0 {
        let front = endpoints.drop_last();
        assert forall|i: int| 0 <= i < front.len() implies !regex_matches(
            pattern,
            #[trigger] front[i],
        ) by {
            assert(front[i] == endpoints[i]);
        }
        lemma_nothing_passes(front, pattern);
        assert(!regex_matches(pattern, endpoints[endpoints.len() - 1]));
    }
}

/// One setting of a run, and whether the user gave it on this run, in which
/// case the caller keeps it for the runs to come.
#[derive(Debug, Clone)]
pub struct Setting {
    pub value: String,
    pub overridden: bool,
}

/// Settles one setting: what the user gave on this run, else what was kept
/// from an earlier run, else the default.
pub fn choose_setting(given: &Option<String>, kept: &Option<String>, default: &str) -> (setting:
    Setting)
    ensures
        setting.overridden == given is Some,
        setting.value@ == match (*given, *kept) {
            (Some(text), _) => text@,
            (None, Some(text)) => text@,
            (None, None) => default@,
        },
{
    match given {
        Some(text) => Setting { value: text.clone(), overridden: true },
        None => match kept {
            Some(text) => Setting { value: text.clone(), overridden: false },
            None => Setting { value: String::from_str(default), overridden: false },
        },
    }
}

/// The bound on the fetches in flight that a setting stands for: a decimal
/// number from one to 65535. `None` for any other text.
pub open spec fn parallel_reading(setting: Seq<char>) -> Option<int> {
    match number_reading(setting, 65535) {
        Some(bound) => if bound >= 1 {
            Some(bound)
        } else {
            None
        },
        None => None,
    }
}

/// Reads the bound on the fetches in flight from its setting.
pub fn parse_parallel(setting: &str) -> (r: Option<usize>)
    ensures
        match r {
            Some(bound) => parallel_reading(setting@) == Some(bound as int),
            None => parallel_reading(setting@) is None,
        },
{
    match parse_number(setting, 65535) {
        Some(bound) => if bound >= 1 {
            Some(bound as usize)
        } else {
            None
        },
        None => None,
    }
}

} // verus!
