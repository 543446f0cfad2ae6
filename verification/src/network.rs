//! Finding this machine's address in the cluster network.
use vstd::prelude::*;
use crate::text::{
    is_prefix, is_suffix, lemma_trim_end_matches_done, starts_with, str_eq, trim_end_matches,
    trim_end_matches_exec,
};

verus! {

/// A network interface: its name and, if it has one, its address as text
/// (`address:port`).
#[derive(Debug, Clone, PartialEq, Eq)]
pub struct Interface {
    pub name: String,
    pub addr: Option<String>,
}

/// Whether the interface is `wg0` with an address in `10.13.13`.
pub open spec fn in_cluster(i: Interface) -> bool {
    &&& i.name@ == "wg0"@
    &&& i.addr matches Some(a) && is_prefix("10.13.13"@, a@)
}

/// Index of the first interface in the cluster, or -1.
pub open spec fn first_in_cluster(ifs: Seq<Interface>) -> int
    decreases ifs.len(),
{
    if ifs.len() == 0 {
        -1
    } else {
        let f = first_in_cluster(ifs.drop_last());
        if f >= 0 {
            f
        } else if in_cluster(ifs.last()) {
            ifs.len() - 1
        } else {
            -1
        }
    }
}

/// What `wg0ip` finds.
#[derive(Debug, Clone, PartialEq, Eq)]
pub enum Wg0Lookup {
    /// This machine's cluster address.
    Found(String),
    /// This machine is not in the cluster, and only this machine was to be asked.
    NotFound,
    /// Ask the tool inside `zk0`, with this command.
    AskZk0(String),
}

/// The cluster address: the address of the first `wg0` interface in
/// `10.13.13`, without its trailing `:0`s; failing that, nothing when
/// `force_local` is `Some(true)`, else a question to `zk0`.
pub fn wg0ip(ifaces: &Vec<Interface>, force_local: Option<bool>) -> (r: Wg0Lookup)
    ensures
        first_in_cluster(ifaces@) >= 0 ==> (r matches Wg0Lookup::Found(a) && a@ == trim_end_matches(
            ifaces@[first_in_cluster(ifaces@)].addr->0@,
            ":0"@,
        )),
        first_in_cluster(ifaces@) < 0 && force_local == Some(true) ==> r is NotFound,
        first_in_cluster(ifaces@) < 0 && force_local != Some(true) ==> (r matches Wg0Lookup::AskZk0(c)
            && c@ == "zc wg0ip"@),
{
    let mut i: usize = 0;
    while i < ifaces.len()
        invariant
            i <= ifaces.len(),
            first_in_cluster(ifaces@.take(i as int)) == -1,
        decreases ifaces.len() - i,
    {
        assert(ifaces@.take(i + 1).drop_last() =~= ifaces@.take(i as int));
        assert(ifaces@.take(i + 1).last() == ifaces@[i as int]);
        let it = &ifaces[i];
        if str_eq(it.name.as_str(), "wg0") {
            match &it.addr {
                Some(a) => {
                    if starts_with(a.as_str(), "10.13.13") {
                        proof {
                            lemma_first_in_cluster_prefix(ifaces@, i + 1);
                        }
                        return Wg0Lookup::Found(trim_end_matches_exec(a.as_str(), ":0"));
                    }
                },
                None => {},
            }
        }
        i = i + 1;
    }
    assert(ifaces@.take(ifaces.len() as int) =~= ifaces@);
    match force_local {
        Some(true) => Wg0Lookup::NotFound,
        _ => Wg0Lookup::AskZk0(String::from_str("zc wg0ip")),
    }
}

/// A first match in a prefix is the first match in the whole list.
proof fn lemma_first_in_cluster_prefix(ifs: Seq<Interface>, k: int)
    requires
        0 <= k <= ifs.len(),
        first_in_cluster(ifs.take(k)) >= 0,
    ensures
        first_in_cluster(ifs) == first_in_cluster(ifs.take(k)),
    decreases ifs.len() - k,
{
    if k < ifs.len() {
        assert(ifs.take(k + 1).drop_last() =~= ifs.take(k));
        lemma_first_in_cluster_prefix(ifs, k + 1);
    } else {
        assert(ifs.take(k) =~= ifs);
    }
}

pub proof fn lemma_first_in_cluster(ifs: Seq<Interface>)
    ensures
        -1 <= first_in_cluster(ifs) < ifs.len(),
        first_in_cluster(ifs) >= 0 ==> in_cluster(ifs[first_in_cluster(ifs)]),
    decreases ifs.len(),
{
    if ifs.len() > 0 {
        lemma_first_in_cluster(ifs.drop_last());
        let f = first_in_cluster(ifs.drop_last());
        if f >= 0 {
            assert(ifs.drop_last()[f] == ifs[f]);
        }
    }
}

/// Trimming `:0` from an address that starts with `10.13.13` keeps that start.
proof fn lemma_trim_keeps_cluster_prefix(s: Seq<char>)
    requires
        is_prefix("10.13.13"@, s),
    ensures
        is_prefix("10.13.13"@, trim_end_matches(s, ":0"@)),
    decreases s.len(),
{
    reveal_strlit("10.13.13");
    reveal_strlit(":0");
    if is_suffix(":0"@, s) {
        let t = s.take(s.len() - 2);
        assert(s.len() >= 10) by {
            if s.len() <= 9 {
                assert(s[s.len() - 2] == ":0"@[0]);
                assert(s[s.len() - 2] == s.take(8)[s.len() - 2]) by {
                    if s.len() == 9 {} else {}
                }
            }
        }
        assert(t.take(8) =~= s.take(8));
        lemma_trim_keeps_cluster_prefix(t);
    }
}

/// The address `wg0ip` finds starts with `10.13.13` and does not end with
/// `:0`.
pub proof fn lemma_wg0ip_address(ifs: Seq<Interface>)
    requires
        first_in_cluster(ifs) >= 0,
    ensures
        is_prefix("10.13.13"@, trim_end_matches(ifs[first_in_cluster(ifs)].addr->0@, ":0"@)),
        !is_suffix(":0"@, trim_end_matches(ifs[first_in_cluster(ifs)].addr->0@, ":0"@)),
{
    lemma_first_in_cluster(ifs);
    let a = ifs[first_in_cluster(ifs)].addr->0@;
    lemma_trim_keeps_cluster_prefix(a);
    reveal_strlit(":0");
    lemma_trim_end_matches_done(a, ":0"@);
}

} // verus!
