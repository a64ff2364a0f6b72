//! The network: connectivity between nodes and the stochastic fate of each
//! message in simulation mode.
//!
//! Connectivity is per directed node pair and can be cut link by link, node
//! by node, or along a partition. Delays are drawn uniformly from a window;
//! drop, duplication and corruption are drawn against configured rates (in
//! percent). All draws consume the shared generator in a fixed order, so the
//! fate of a message is an exact function of the generator state, stated by
//! [`spec_plan_delivery`].

use vstd::prelude::*;
use crate::rng::{spec_rng_next, Rng};

verus! {

/// The mathematical value of a [`Link`].
#[verifier::ext_equal]
pub struct LinkV {
    /// Source node name.
    pub from: Seq<char>,
    /// Destination node name.
    pub to: Seq<char>,
}

/// A directed node pair.
pub struct Link {
    /// Source node name.
    pub from: String,
    /// Destination node name.
    pub to: String,
}

impl DeepView for Link {
    type V = LinkV;

    open spec fn deep_view(&self) -> LinkV {
        LinkV { from: self.from@, to: self.to@ }
    }
}

impl Clone for Link {
    /// Cloning preserves the link value.
    fn clone(&self) -> (r: Self)
        ensures
            r.deep_view() == self.deep_view(),
    {
        Link { from: self.from.clone(), to: self.to.clone() }
    }
}

/// The mathematical value of a [`Network`].
#[verifier::ext_equal]
pub struct NetworkV {
    /// Least transmission delay.
    pub delay_min: u64,
    /// Greatest transmission delay.
    pub delay_max: u64,
    /// Drop probability in percent.
    pub drop_rate: u64,
    /// Duplication probability in percent.
    pub dup_rate: u64,
    /// Corruption probability in percent.
    pub corrupt_rate: u64,
    /// Directed links that are cut.
    pub disabled_links: Seq<LinkV>,
    /// Nodes cut off in both directions.
    pub disconnected: Seq<Seq<char>>,
}

/// The network configuration and connectivity state.
pub struct Network {
    /// Least transmission delay, in time units.
    pub delay_min: u64,
    /// Greatest transmission delay, in time units.
    pub delay_max: u64,
    /// Drop probability in percent, `0..=100`.
    pub drop_rate: u64,
    /// Duplication probability in percent, `0..=100`.
    pub dup_rate: u64,
    /// Corruption probability in percent, `0..=100`.
    pub corrupt_rate: u64,
    /// Directed links that are cut.
    pub disabled_links: Vec<Link>,
    /// Nodes cut off from the network in both directions.
    pub disconnected: Vec<String>,
}

impl DeepView for Network {
    type V = NetworkV;

    open spec fn deep_view(&self) -> NetworkV {
        NetworkV {
            delay_min: self.delay_min,
            delay_max: self.delay_max,
            drop_rate: self.drop_rate,
            dup_rate: self.dup_rate,
            corrupt_rate: self.corrupt_rate,
            disabled_links: self.disabled_links.deep_view(),
            disconnected: self.disconnected.deep_view(),
        }
    }
}

/// Whether a name occurs in a name list.
pub open spec fn spec_has_name(ns: Seq<Seq<char>>, name: Seq<char>) -> bool {
    exists|i: int| 0 <= i < ns.len() && ns[i] == name
}

/// Whether a directed link is cut.
pub open spec fn spec_link_disabled(ls: Seq<LinkV>, from: Seq<char>, to: Seq<char>) -> bool {
    exists|i: int| 0 <= i < ls.len() && ls[i] == (LinkV { from, to })
}

/// Whether the directed pair is connected: neither node is cut off and the
/// link itself is not cut.
pub open spec fn spec_connected(net: NetworkV, from: Seq<char>, to: Seq<char>) -> bool {
    &&& !spec_has_name(net.disconnected, from)
    &&& !spec_has_name(net.disconnected, to)
    &&& !spec_link_disabled(net.disabled_links, from, to)
}

/// The fate of one message in simulation mode.
#[derive(Clone, Copy, PartialEq, Eq, Structural, Debug)]
pub struct DeliveryPlan {
    /// The message is dropped before delivery.
    pub dropped: bool,
    /// Transmission delay of the delivery.
    pub delay: u64,
    /// Whether a duplicate delivery happens.
    pub duplicated: bool,
    /// Transmission delay of the duplicate delivery.
    pub dup_delay: u64,
    /// Whether the payload is corrupted.
    pub corrupted: bool,
}

/// One uniform draw from a delay window.
pub open spec fn spec_delay_draw(s: u64, dmin: u64, dmax: u64) -> u64 {
    (dmin + spec_rng_next(s) % ((dmax - dmin + 1) as u64)) as u64
}

/// The exact fate of a message as a function of the network configuration
/// and the generator state, and the state the generator is left in. The
/// draws come in a fixed order: drop, delay, duplication, duplicate delay,
/// corruption; a dropped message consumes the drop draw alone.
pub open spec fn spec_plan_delivery(net: NetworkV, s0: u64) -> (DeliveryPlan, u64) {
    let s1 = spec_rng_next(s0);
    if s1 % 100 < net.drop_rate {
        (
            DeliveryPlan {
                dropped: true,
                delay: 0,
                duplicated: false,
                dup_delay: 0,
                corrupted: false,
            },
            s1,
        )
    } else {
        let s2 = spec_rng_next(s1);
        let delay = spec_delay_draw(s1, net.delay_min, net.delay_max);
        let s3 = spec_rng_next(s2);
        let duplicated = s3 % 100 < net.dup_rate;
        if duplicated {
            let s4 = spec_rng_next(s3);
            let dup_delay = spec_delay_draw(s3, net.delay_min, net.delay_max);
            let s5 = spec_rng_next(s4);
            let corrupted = s5 % 100 < net.corrupt_rate;
            (DeliveryPlan { dropped: false, delay, duplicated, dup_delay, corrupted }, s5)
        } else {
            let s4 = spec_rng_next(s3);
            let corrupted = s4 % 100 < net.corrupt_rate;
            (
                DeliveryPlan { dropped: false, delay, duplicated, dup_delay: 0, corrupted },
                s4,
            )
        }
    }
}

/// Finds a name in a list.
pub fn find_name(ns: &Vec<String>, name: &String) -> (r: Option<usize>)
    ensures
        r is Some <==> spec_has_name(ns.deep_view(), name@),
        r matches Some(i) ==> i < ns.deep_view().len() && ns.deep_view()[i as int] == name@,
{
    let ghost nv = ns.deep_view();
    let mut i: usize = 0;
    while i < ns.len()
        invariant
            0 <= i <= ns.len(),
            nv == ns.deep_view(),
            nv.len() == ns.len(),
            forall|j: int| 0 <= j < i ==> nv[j] != name@,
        decreases ns.len() - i,
    {
        proof {
            assert(nv[i as int] == ns@[i as int]@);
        }
        if ns[i] == *name {
            return Option::Some(i);
        }
        i = i + 1;
    }
    Option::None
}

/// Finds a directed link in a list.
fn find_link(ls: &Vec<Link>, from: &String, to: &String) -> (r: Option<usize>)
    ensures
        r is Some <==> spec_link_disabled(ls.deep_view(), from@, to@),
        r matches Some(i) ==> i < ls.deep_view().len(),
{
    let ghost lv = ls.deep_view();
    let mut i: usize = 0;
    while i < ls.len()
        invariant
            0 <= i <= ls.len(),
            lv == ls.deep_view(),
            lv.len() == ls.len(),
            forall|j: int| 0 <= j < i ==> lv[j] != (LinkV { from: from@, to: to@ }),
        decreases ls.len() - i,
    {
        proof {
            assert(lv[i as int] == ls@[i as int].deep_view());
        }
        if ls[i].from == *from && ls[i].to == *to {
            proof {
                assert(lv[i as int] =~= (LinkV { from: from@, to: to@ }));
            }
            return Option::Some(i);
        }
        i = i + 1;
    }
    Option::None
}

impl Network {
    /// A network with zero delay and no failures, all pairs connected.
    pub fn new() -> (r: Network)
        ensures
            r.deep_view() == (NetworkV {
                delay_min: 0,
                delay_max: 0,
                drop_rate: 0,
                dup_rate: 0,
                corrupt_rate: 0,
                disabled_links: Seq::empty(),
                disconnected: Seq::empty(),
            }),
    {
        let r = Network {
            delay_min: 0,
            delay_max: 0,
            drop_rate: 0,
            dup_rate: 0,
            corrupt_rate: 0,
            disabled_links: Vec::new(),
            disconnected: Vec::new(),
        };
        proof {
            assert(r.disabled_links.deep_view() =~= Seq::<LinkV>::empty());
            assert(r.disconnected.deep_view() =~= Seq::<Seq<char>>::empty());
        }
        r
    }

    /// Sets the transmission delay window.
    pub fn set_delay(&mut self, min: u64, max: u64)
        requires
            min <= max,
            max < u64::MAX,
        ensures
            final(self).deep_view() == (NetworkV {
                delay_min: min,
                delay_max: max,
                ..old(self).deep_view()
            }),
    {
        self.delay_min = min;
        self.delay_max = max;
    }

    /// Sets the drop probability, in percent.
    pub fn set_drop_rate(&mut self, rate: u64)
        requires
            rate <= 100,
        ensures
            final(self).deep_view() == (NetworkV { drop_rate: rate, ..old(self).deep_view() }),
    {
        self.drop_rate = rate;
    }

    /// Sets the duplication probability, in percent.
    pub fn set_dup_rate(&mut self, rate: u64)
        requires
            rate <= 100,
        ensures
            final(self).deep_view() == (NetworkV { dup_rate: rate, ..old(self).deep_view() }),
    {
        self.dup_rate = rate;
    }

    /// Sets the corruption probability, in percent.
    pub fn set_corrupt_rate(&mut self, rate: u64)
        requires
            rate <= 100,
        ensures
            final(self).deep_view() == (NetworkV {
                corrupt_rate: rate,
                ..old(self).deep_view()
            }),
    {
        self.corrupt_rate = rate;
    }

    /// Whether the directed node pair is connected.
    pub fn connected(&self, from: &String, to: &String) -> (r: bool)
        ensures
            r == spec_connected(self.deep_view(), from@, to@),
    {
        if find_name(&self.disconnected, from).is_some() {
            return false;
        }
        if find_name(&self.disconnected, to).is_some() {
            return false;
        }
        find_link(&self.disabled_links, from, to).is_none()
    }

    /// Cuts a node off from the network in both directions.
    pub fn disconnect_node(&mut self, name: &str)
        ensures
            final(self).deep_view() == (NetworkV {
                disconnected: old(self).deep_view().disconnected.push(name@),
                ..old(self).deep_view()
            }),
    {
        let ghost n0 = self.deep_view();
        self.disconnected.push(name.to_owned());
        proof {
            assert forall|j: int| 0 <= j < self.disconnected.deep_view().len() implies self
                .disconnected.deep_view()[j] == n0.disconnected.push(name@)[j] by {
                assert(self.disconnected.deep_view()[j] == self.disconnected@[j]@);
            }
            assert(self.disconnected.deep_view() =~= n0.disconnected.push(name@));
            assert(self.deep_view() =~= (NetworkV {
                disconnected: n0.disconnected.push(name@),
                ..n0
            }));
        }
    }

    /// Reconnects a node, removing every record of its disconnection.
    pub fn connect_node(&mut self, name: &str)
        ensures
            !spec_has_name(final(self).deep_view().disconnected, name@),
            final(self).deep_view().disabled_links == old(self).deep_view().disabled_links,
            final(self).deep_view().delay_min == old(self).deep_view().delay_min,
            final(self).deep_view().delay_max == old(self).deep_view().delay_max,
            final(self).deep_view().drop_rate == old(self).deep_view().drop_rate,
            final(self).deep_view().dup_rate == old(self).deep_view().dup_rate,
            final(self).deep_view().corrupt_rate == old(self).deep_view().corrupt_rate,
            forall|n: Seq<char>| n != name@ ==> (spec_has_name(
                final(self).deep_view().disconnected,
                n,
            ) <==> spec_has_name(old(self).deep_view().disconnected, n)),
    {
        let owned = name.to_owned();
        let mut kept: Vec<String> = Vec::new();
        let ghost n0 = self.disconnected.deep_view();
        let mut i: usize = 0;
        while i < self.disconnected.len()
            invariant
                0 <= i <= self.disconnected.len(),
                n0 == self.disconnected.deep_view(),
                n0.len() == self.disconnected.len(),
                owned@ == name@,
                forall|j: int| 0 <= j < kept@.len() ==> #[trigger] kept.deep_view()[j] != name@,
                forall|j: int| 0 <= j < kept@.len() ==> exists|k: int|
                    0 <= k < i && #[trigger] kept.deep_view()[j] == #[trigger] n0[k],
                forall|k: int| 0 <= k < i && n0[k] != name@ ==> spec_has_name(
                    kept.deep_view(),
                    n0[k],
                ),
            decreases self.disconnected.len() - i,
        {
            proof {
                assert(n0[i as int] == self.disconnected@[i as int]@);
            }
            if !(self.disconnected[i] == owned) {
                let ghost kv = kept.deep_view();
                kept.push(self.disconnected[i].clone());
                proof {
                    assert(kept.deep_view() =~= kv.push(n0[i as int]));
                    assert forall|k: int| 0 <= k < i + 1 && n0[k] != name@ implies spec_has_name(
                        kept.deep_view(),
                        n0[k],
                    ) by {
                        if k < i {
                            assert(spec_has_name(kv, n0[k]));
                            let w = choose|w: int| 0 <= w < kv.len() && kv[w] == n0[k];
                            assert(kept.deep_view()[w] == n0[k]);
                        } else {
                            assert(kept.deep_view()[kv.len() as int] == n0[i as int]);
                        }
                    }
                }
            }
            i = i + 1;
        }
        self.disconnected = kept;
        proof {
            assert(!spec_has_name(self.disconnected.deep_view(), name@)) by {
                if spec_has_name(self.disconnected.deep_view(), name@) {
                    let j = choose|j: int|
                        0 <= j < self.disconnected.deep_view().len()
                            && self.disconnected.deep_view()[j] == name@;
                }
            }
            assert forall|n: Seq<char>| n != name@ implies (spec_has_name(
                self.disconnected.deep_view(),
                n,
            ) <==> spec_has_name(n0, n)) by {
                if spec_has_name(self.disconnected.deep_view(), n) {
                    let j = choose|j: int|
                        0 <= j < self.disconnected.deep_view().len()
                            && self.disconnected.deep_view()[j] == n;
                    let k = choose|k: int|
                        0 <= k < n0.len() && self.disconnected.deep_view()[j] == n0[k];
                    assert(n0[k] == n);
                }
                if spec_has_name(n0, n) {
                    let k = choose|k: int| 0 <= k < n0.len() && n0[k] == n;
                    assert(spec_has_name(self.disconnected.deep_view(), n0[k]));
                }
            }
        }
    }

    /// Cuts the directed link from `from` to `to`.
    pub fn disconnect_link(&mut self, from: &str, to: &str)
        ensures
            final(self).deep_view() == (NetworkV {
                disabled_links: old(self).deep_view().disabled_links.push(
                    LinkV { from: from@, to: to@ },
                ),
                ..old(self).deep_view()
            }),
    {
        let ghost n0 = self.deep_view();
        self.disabled_links.push(Link { from: from.to_owned(), to: to.to_owned() });
        proof {
            let lv = LinkV { from: from@, to: to@ };
            assert forall|j: int| 0 <= j < self.disabled_links.deep_view().len() implies self
                .disabled_links.deep_view()[j] == n0.disabled_links.push(lv)[j] by {
                assert(self.disabled_links.deep_view()[j] == self.disabled_links@[
                    j
                ].deep_view());
            }
            assert(self.disabled_links.deep_view() =~= n0.disabled_links.push(lv));
            assert(self.deep_view() =~= (NetworkV {
                disabled_links: n0.disabled_links.push(lv),
                ..n0
            }));
        }
    }

    /// Cuts every link between the two groups, in both directions: the two
    /// sides of the partition cannot reach each other.
    pub fn make_partition(&mut self, group_a: &Vec<String>, group_b: &Vec<String>)
        ensures
            forall|i: int, j: int|
                0 <= i < group_a.deep_view().len() && 0 <= j < group_b.deep_view().len()
                    ==> !spec_connected(
                    final(self).deep_view(),
                    group_a.deep_view()[i],
                    group_b.deep_view()[j],
                ) && !spec_connected(
                    final(self).deep_view(),
                    group_b.deep_view()[j],
                    group_a.deep_view()[i],
                ),
            final(self).deep_view().disconnected == old(self).deep_view().disconnected,
            final(self).deep_view().delay_min == old(self).deep_view().delay_min,
            final(self).deep_view().delay_max == old(self).deep_view().delay_max,
            final(self).deep_view().drop_rate == old(self).deep_view().drop_rate,
            final(self).deep_view().dup_rate == old(self).deep_view().dup_rate,
            final(self).deep_view().corrupt_rate == old(self).deep_view().corrupt_rate,
            forall|f: Seq<char>, t: Seq<char>|
                spec_link_disabled(old(self).deep_view().disabled_links, f, t)
                    ==> spec_link_disabled(final(self).deep_view().disabled_links, f, t),
    {
        let mut i: usize = 0;
        while i < group_a.len()
            invariant
                0 <= i <= group_a.len(),
                self.disconnected.deep_view() == old(self).deep_view().disconnected,
                self.delay_min == old(self).deep_view().delay_min,
                self.delay_max == old(self).deep_view().delay_max,
                self.drop_rate == old(self).deep_view().drop_rate,
                self.dup_rate == old(self).deep_view().dup_rate,
                self.corrupt_rate == old(self).deep_view().corrupt_rate,
                forall|f: Seq<char>, t: Seq<char>| spec_link_disabled(
                    old(self).deep_view().disabled_links,
                    f,
                    t,
                ) ==> spec_link_disabled(self.deep_view().disabled_links, f, t),
                forall|x: int, j: int|
                    0 <= x < i && 0 <= j < group_b.deep_view().len() ==> spec_link_disabled(
                        self.deep_view().disabled_links,
                        group_a.deep_view()[x],
                        group_b.deep_view()[j],
                    ) && spec_link_disabled(
                        self.deep_view().disabled_links,
                        group_b.deep_view()[j],
                        group_a.deep_view()[x],
                    ),
            decreases group_a.len() - i,
        {
            let mut j: usize = 0;
            while j < group_b.len()
                invariant
                    0 <= i < group_a.len(),
                    0 <= j <= group_b.len(),
                    group_a.deep_view().len() == group_a.len(),
                    self.disconnected.deep_view() == old(self).deep_view().disconnected,
                    self.delay_min == old(self).deep_view().delay_min,
                    self.delay_max == old(self).deep_view().delay_max,
                    self.drop_rate == old(self).deep_view().drop_rate,
                    self.dup_rate == old(self).deep_view().dup_rate,
                    self.corrupt_rate == old(self).deep_view().corrupt_rate,
                    forall|f: Seq<char>, t: Seq<char>| spec_link_disabled(
                        old(self).deep_view().disabled_links,
                        f,
                        t,
                    ) ==> spec_link_disabled(self.deep_view().disabled_links, f, t),
                    forall|x: int, y: int|
                        0 <= x < i && 0 <= y < group_b.deep_view().len() ==> spec_link_disabled(
                            self.deep_view().disabled_links,
                            group_a.deep_view()[x],
                            group_b.deep_view()[y],
                        ) && spec_link_disabled(
                            self.deep_view().disabled_links,
                            group_b.deep_view()[y],
                            group_a.deep_view()[x],
                        ),
                    forall|y: int| 0 <= y < j ==> spec_link_disabled(
                        self.deep_view().disabled_links,
                        group_a.deep_view()[i as int],
                        group_b.deep_view()[y],
                    ) && spec_link_disabled(
                        self.deep_view().disabled_links,
                        group_b.deep_view()[y],
                        group_a.deep_view()[i as int],
                    ),
                decreases group_b.len() - j,
            {
                proof {
                    assert(group_a.deep_view()[i as int] == group_a@[i as int]@);
                    assert(group_b.deep_view()[j as int] == group_b@[j as int]@);
                }
                let a = &group_a[i];
                let b = &group_b[j];
                let ghost before = self.deep_view().disabled_links;
                self.disconnect_link(a.as_str(), b.as_str());
                self.disconnect_link(b.as_str(), a.as_str());
                proof {
                    let la = LinkV {
                        from: group_a.deep_view()[i as int],
                        to: group_b.deep_view()[j as int],
                    };
                    let lb = LinkV {
                        from: group_b.deep_view()[j as int],
                        to: group_a.deep_view()[i as int],
                    };
                    let now = self.deep_view().disabled_links;
                    assert(now[now.len() - 2] == la);
                    assert(now[now.len() - 1] == lb);
                    assert forall|f: Seq<char>, t: Seq<char>| spec_link_disabled(before, f, t)
                        implies spec_link_disabled(now, f, t) by {
                        let w = choose|w: int|
                            0 <= w < before.len() && before[w] == (LinkV { from: f, to: t });
                        assert(now[w] == before[w]);
                    }
                }
                j = j + 1;
            }
            i = i + 1;
        }
    }

    /// Draws the fate of one message; the result and the state the
    /// generator is left in are exact functions of the prior state.
    pub fn plan_delivery(&self, rng: &mut Rng) -> (r: DeliveryPlan)
        requires
            old(rng).wf(),
            self.drop_rate <= 100,
            self.dup_rate <= 100,
            self.corrupt_rate <= 100,
            self.delay_min <= self.delay_max,
            self.delay_max < u64::MAX,
        ensures
            final(rng).wf(),
            (r, final(rng)@) == spec_plan_delivery(self.deep_view(), old(rng)@),
    {
        let d = rng.next_u64();
        if d % 100 < self.drop_rate {
            return DeliveryPlan {
                dropped: true,
                delay: 0,
                duplicated: false,
                dup_delay: 0,
                corrupted: false,
            };
        }
        let span = self.delay_max - self.delay_min + 1;
        let delay = self.delay_min + rng.rand_range(span);
        let duplicated = rng.next_u64() % 100 < self.dup_rate;
        let dup_delay = if duplicated {
            self.delay_min + rng.rand_range(span)
        } else {
            0
        };
        let corrupted = rng.next_u64() % 100 < self.corrupt_rate;
        DeliveryPlan { dropped: false, delay, duplicated, dup_delay, corrupted }
    }
}


/// Clones a link list, preserving its value.
pub fn clone_links(v: &Vec<Link>) -> (r: Vec<Link>)
    ensures
        r.deep_view() == v.deep_view(),
{
    let mut r: Vec<Link> = Vec::new();
    let mut i: usize = 0;
    while i < v.len()
        invariant
            0 <= i <= v.len(),
            r@.len() == i,
            forall|j: int| 0 <= j < i ==> r.deep_view()[j] == v.deep_view()[j],
        decreases v.len() - i,
    {
        let x = v[i].clone();
        proof {
            assert(v.deep_view()[i as int] == v@[i as int].deep_view());
        }
        r.push(x);
        proof {
            assert forall|j: int| 0 <= j < i + 1 implies r.deep_view()[j] == v.deep_view()[j] by {
                assert(r.deep_view()[j] == r@[j].deep_view());
            }
        }
        i = i + 1;
    }
    proof {
        assert(r.deep_view() =~= v.deep_view());
    }
    r
}

impl Clone for Network {
    /// Cloning preserves the network value.
    fn clone(&self) -> (r: Self)
        ensures
            r.deep_view() == self.deep_view(),
    {
        let r = Network {
            delay_min: self.delay_min,
            delay_max: self.delay_max,
            drop_rate: self.drop_rate,
            dup_rate: self.dup_rate,
            corrupt_rate: self.corrupt_rate,
            disabled_links: clone_links(&self.disabled_links),
            disconnected: crate::node::clone_names(&self.disconnected),
        };
        proof {
            assert(r.deep_view() =~= self.deep_view());
        }
        r
    }
}

} // verus!
