//! Which nodes requests are routed to: those of the cluster, of a datacenter
//! or of a rack, and what to fall back to where there are none.

use crate::node_url::{add_pair, change_path, opt_chars, pair_added, path_changed, NodeUrl};
use vstd::prelude::*;

verus! {

/// A set of nodes, and the scope to fall back to where it has no live ones.
#[derive(Debug)]
pub struct RoutingScope {
    dc: Option<String>,
    rack: Option<String>,
    fallback: Option<Box<RoutingScope>>,
}

/// One scope of a chain, without what it falls back to.
pub ghost enum ScopeV {
    Cluster,
    Datacenter(Seq<char>),
    Rack(Seq<char>, Seq<char>),
}

/// The URL `href` with all the pairs added to its query, in order.
pub open spec fn with_pairs(href: Seq<char>, pairs: Seq<(Seq<char>, Seq<char>)>) -> Option<
    Seq<char>,
>
    decreases pairs.len(),
{
    if pairs.len() == 0 {
        Some(href)
    } else {
        match pair_added(href, pairs[0].0, pairs[0].1) {
            Some(u) => with_pairs(u.href, pairs.skip(1)),
            None => None,
        }
    }
}

/// The URL at which the node `href` is asked for nodes, by a query.
pub open spec fn localnodes_url(href: Seq<char>, pairs: Seq<(Seq<char>, Seq<char>)>) -> Option<
    Seq<char>,
> {
    match path_changed(href, "/localnodes"@) {
        Some(u) => with_pairs(u.href, pairs),
        None => None,
    }
}

impl RoutingScope {
    /// This scope, without what it falls back to.
    pub closed spec fn level(self) -> ScopeV {
        match (self.dc, self.rack) {
            (Some(dc), Some(rack)) => ScopeV::Rack(dc@, rack@),
            (Some(dc), None) => ScopeV::Datacenter(dc@),
            _ => ScopeV::Cluster,
        }
    }

    /// This scope and all it falls back to, in order.
    pub closed spec fn chain(self) -> Seq<ScopeV>
        decreases self,
    {
        match self.fallback {
            Some(next) => seq![self.level()] + next.chain(),
            None => seq![self.level()],
        }
    }

    /// A rack is one of a datacenter.
    pub closed spec fn valid(self) -> bool
        decreases self,
    {
        &&& self.rack is Some ==> self.dc is Some
        &&& match self.fallback {
            Some(next) => next.valid(),
            None => true,
        }
    }

    /// All nodes of the cluster.
    pub fn from_cluster() -> (r: Self)
        ensures
            r.chain() == seq![ScopeV::Cluster],
            r.valid(),
    {
        RoutingScope { dc: None, rack: None, fallback: None }
    }

    /// The nodes of a datacenter.
    pub fn from_datacenter(dc: &str) -> (r: Self)
        ensures
            r.chain() == seq![ScopeV::Datacenter(dc@)],
            r.valid(),
    {
        RoutingScope { dc: Some(dc.to_owned()), rack: None, fallback: None }
    }

    /// The nodes of a rack.
    pub fn from_rack(dc: &str, rack: &str) -> (r: Self)
        ensures
            r.chain() == seq![ScopeV::Rack(dc@, rack@)],
            r.valid(),
    {
        RoutingScope { dc: Some(dc.to_owned()), rack: Some(rack.to_owned()), fallback: None }
    }

    /// Adds a scope to fall back to, after those that there are.
    pub fn with_fallback(self, fallback: RoutingScope) -> (r: Self)
        requires
            self.valid(),
            fallback.valid(),
        ensures
            r.chain() == self.chain() + fallback.chain(),
            r.valid(),
        decreases self,
    {
        let ghost level = self.level();
        let next = match self.fallback {
            Some(next) => (*next).with_fallback(fallback),
            None => fallback,
        };
        let r = RoutingScope { dc: self.dc, rack: self.rack, fallback: Some(Box::new(next)) };
        assert(r.level() == level);
        assert(r.chain() =~= self.chain() + fallback.chain());
        r
    }

    /// The scope to fall back to.
    pub fn fallback(&self) -> (r: Option<&RoutingScope>)
        requires
            self.valid(),
        ensures
            r is Some <==> self.chain().len() > 1,
            r matches Some(next) ==> next.chain() == self.chain().drop_first() && next.valid(),
    {
        match &self.fallback {
            Some(next) => {
                proof {
                    next.lemma_chain();
                }
                assert(self.chain().drop_first() =~= next.chain());
                Some(&**next)
            },
            None => None,
        }
    }

    /// A chain has at least the scope itself.
    pub proof fn lemma_chain(&self)
        ensures
            self.chain().len() > 0,
            self.chain()[0] == self.level(),
    {
    }

    /// Whether this is the whole cluster.
    pub fn is_cluster(&self) -> (r: bool)
        ensures
            r == (self.level() == ScopeV::Cluster),
            self.chain().len() > 0,
            self.chain()[0] == self.level(),
    {
        self.dc.is_none()
    }

    /// The datacenter, where there is one.
    pub fn dc(&self) -> (r: Option<&str>)
        ensures
            match self.level() {
                ScopeV::Cluster => r is None,
                ScopeV::Datacenter(dc) => r is Some && r->0@ == dc,
                ScopeV::Rack(dc, _) => r is Some && r->0@ == dc,
            },
    {
        match &self.dc {
            Some(dc) => Some(dc.as_str()),
            None => None,
        }
    }

    /// The rack, where there is one.
    pub fn rack(&self) -> (r: Option<&str>)
        requires
            self.valid(),
        ensures
            match self.level() {
                ScopeV::Rack(_, rack) => r is Some && r->0@ == rack,
                _ => r is None,
            },
    {
        match &self.rack {
            Some(rack) => Some(rack.as_str()),
            None => None,
        }
    }

    /// The query by which a node is asked for the nodes of this scope.
    pub open spec fn query(self) -> Seq<(Seq<char>, Seq<char>)> {
        match self.level() {
            ScopeV::Cluster => Seq::empty(),
            ScopeV::Datacenter(dc) => seq![("dc"@, dc)],
            ScopeV::Rack(dc, rack) => seq![("dc"@, dc), ("rack"@, rack)],
        }
    }

    /// The query by which a node is asked for the nodes of this scope.
    pub fn localnodes_query(&self) -> (r: Vec<(String, String)>)
        requires
            self.valid(),
        ensures
            Seq::new(r@.len(), |i: int| (r@[i].0@, r@[i].1@)) == self.query(),
    {
        let mut out: Vec<(String, String)> = Vec::new();
        if let Some(dc) = self.dc() {
            out.push(("dc".to_owned(), dc.to_owned()));
        }
        if let Some(rack) = self.rack() {
            out.push(("rack".to_owned(), rack.to_owned()));
        }
        assert(Seq::new(out@.len(), |i: int| (out@[i].0@, out@[i].1@)) =~= self.query());
        out
    }

    /// The URL at which a node is asked for the nodes of this scope; `None`
    /// where the node has no URL, or too long a one.
    pub fn build_localnodes_url(&self, node: &NodeUrl) -> (r: Option<String>)
        requires
            self.valid(),
        ensures
            opt_chars(r) == localnodes_url(node@.href, self.query()),
    {
        let mut url = match change_path(node.as_str(), "/localnodes") {
            Some(u) => u,
            None => {
                return None;
            },
        };
        let pairs = self.localnodes_query();
        let ghost all = self.query();
        let mut i: usize = 0;
        assert(all.skip(0) =~= all);
        while i < pairs.len()
            invariant
                i <= pairs.len(),
                Seq::new(pairs@.len(), |k: int| (pairs@[k].0@, pairs@[k].1@)) == all,
                all == self.query(),
                localnodes_url(node@.href, all) == with_pairs(url@.href, all.skip(i as int)),
            decreases pairs.len() - i,
        {
            let ghost rest = all.skip(i as int);
            assert(rest[0] == (pairs@[i as int].0@, pairs@[i as int].1@));
            assert(rest.skip(1) =~= all.skip(i + 1));
            url = match add_pair(url.as_str(), pairs[i].0.as_str(), pairs[i].1.as_str()) {
                Some(u) => u,
                None => {
                    return None;
                },
            };
            i = i + 1;
        }
        assert(all.skip(i as int).len() == 0);
        Some(url.href)
    }

    /// A copy of this scope.
    pub fn duplicate(&self) -> (r: Self)
        ensures
            r.chain() == self.chain(),
            r.valid() == self.valid(),
        decreases self,
    {
        let dc = match &self.dc {
            Some(dc) => Some(dc.clone()),
            None => None,
        };
        let rack = match &self.rack {
            Some(rack) => Some(rack.clone()),
            None => None,
        };
        match &self.fallback {
            Some(next) => {
                let next = next.duplicate();
                RoutingScope { dc, rack, fallback: Some(Box::new(next)) }
            },
            None => RoutingScope { dc, rack, fallback: None },
        }
    }
}

/// A node is asked for the nodes of a scope by what the scope names: nothing
/// for the cluster, the datacenter, or the datacenter and the rack.
pub proof fn law_scope_asks_for_what_it_names(scope: RoutingScope)
    ensures
        scope.chain()[0] is Cluster ==> scope.query().len() == 0,
        scope.chain()[0] matches ScopeV::Datacenter(dc) ==> scope.query() == seq![("dc"@, dc)],
        scope.chain()[0] matches ScopeV::Rack(dc, rack) ==> scope.query() == seq![
            ("dc"@, dc),
            ("rack"@, rack),
        ],
{
}

/// A node is asked under the path of its local nodes, with every pair of the
/// query added in order.
pub proof fn law_whole_query_is_asked(
    href: Seq<char>,
    base: crate::node_url::UrlV,
    one: crate::node_url::UrlV,
    two: crate::node_url::UrlV,
    first: (Seq<char>, Seq<char>),
    second: (Seq<char>, Seq<char>),
)
    requires
        path_changed(href, "/localnodes"@) == Some(base),
        pair_added(base.href, first.0, first.1) == Some(one),
        pair_added(one.href, second.0, second.1) == Some(two),
    ensures
        localnodes_url(href, Seq::empty()) == Some(base.href),
        localnodes_url(href, seq![first]) == Some(one.href),
        localnodes_url(href, seq![first, second]) == Some(two.href),
{
    let pair = seq![first, second];
    assert(pair.skip(1) =~= seq![second]);
    assert(seq![second].skip(1) =~= Seq::empty());
    assert(seq![first].skip(1) =~= Seq::empty());
    assert(with_pairs(one.href, Seq::empty()) == Some(one.href));
    assert(with_pairs(two.href, Seq::empty()) == Some(two.href));
    assert(with_pairs(one.href, seq![second]) == Some(two.href));
    assert(with_pairs(base.href, pair) == with_pairs(one.href, pair.skip(1)));
}

} // verus!
