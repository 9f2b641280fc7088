//! Backend endpoints: a host and port produced by service discovery,
//! optionally carrying a bag of labels read by the selection predicate.

use vstd::prelude::*;
use crate::text::str_eq;

verus! {

/// A reachable upstream address with an optional label bag.
pub struct Endpoint {
    pub host: String,
    pub port: u16,
    /// `None` means the endpoint carries no label bag at all, which the
    /// selection predicate treats differently from an empty bag.
    pub labels: Option<Vec<(String, String)>>,
}

/// The mathematical value of an endpoint: its address and label bag as
/// plain sequences.
pub struct EndpointModel {
    pub host: Seq<char>,
    pub port: u16,
    pub labels: Option<Seq<(Seq<char>, Seq<char>)>>,
}

/// A label bag as a sequence of key/value character sequences.
pub open spec fn label_view(bag: Seq<(String, String)>) -> Seq<(Seq<char>, Seq<char>)> {
    bag.map_values(|p: (String, String)| (p.0@, p.1@))
}

impl View for Endpoint {
    type V = EndpointModel;

    open spec fn view(&self) -> EndpointModel {
        EndpointModel {
            host: self.host@,
            port: self.port,
            labels: match self.labels {
                None => None,
                Some(bag) => Some(label_view(bag@)),
            },
        }
    }
}

impl Endpoint {
    /// An unlabeled endpoint.
    pub fn new(host: String, port: u16) -> (r: Endpoint)
        ensures
            r@ == (EndpointModel { host: host@, port, labels: None }),
    {
        Endpoint { host, port, labels: None }
    }

    /// An endpoint with a label bag.
    pub fn labeled(host: String, port: u16, labels: Vec<(String, String)>) -> (r: Endpoint)
        ensures
            r@ == (EndpointModel { host: host@, port, labels: Some(label_view(labels@)) }),
    {
        Endpoint { host, port, labels: Some(labels) }
    }
}

/// The value bound to `key` in a label bag: the first pair with that key
/// wins.
pub open spec fn bag_lookup(bag: Seq<(Seq<char>, Seq<char>)>, key: Seq<char>) -> Option<Seq<char>>
    decreases bag.len(),
{
    if bag.len() == 0 {
        None
    } else if bag[0].0 == key {
        Some(bag[0].1)
    } else {
        bag_lookup(bag.drop_first(), key)
    }
}

/// Looks `key` up in a label bag.
pub fn bag_get(bag: &Vec<(String, String)>, key: &str) -> (r: Option<String>)
    ensures
        match r {
            Some(v) => bag_lookup(label_view(bag@), key@) == Some(v@),
            None => bag_lookup(label_view(bag@), key@) is None,
        },
{
    let mut i: usize = 0;
    let n = bag.len();
    proof {
        assert(label_view(bag@).skip(0) =~= label_view(bag@));
    }
    while i < n
        invariant
            n == bag@.len(),
            i <= n,
            bag_lookup(label_view(bag@), key@) == bag_lookup(
                label_view(bag@).skip(i as int),
                key@,
            ),
        decreases n - i,
    {
        proof {
            assert(label_view(bag@).skip(i as int).drop_first() =~= label_view(bag@).skip(i + 1));
            assert(label_view(bag@).skip(i as int)[0] == label_view(bag@)[i as int]);
        }
        if str_eq(bag[i].0.as_str(), key) {
            return Some(bag[i].1.clone());
        }
        i = i + 1;
    }
    proof {
        assert(label_view(bag@).skip(n as int) =~= Seq::<(Seq<char>, Seq<char>)>::empty());
    }
    None
}

/// Copies a label bag, keeping its mathematical value.
pub fn clone_bag(bag: &Vec<(String, String)>) -> (r: Vec<(String, String)>)
    ensures
        label_view(r@) == label_view(bag@),
{
    let mut out: Vec<(String, String)> = Vec::new();
    let n = bag.len();
    let mut i: usize = 0;
    while i < n
        invariant
            n == bag@.len(),
            i <= n,
            out@.len() == i,
            forall|j: int|
                0 <= j < i ==> (#[trigger] out@[j]).0@ == bag@[j].0@ && out@[j].1@ == bag@[j].1@,
        decreases n - i,
    {
        out.push((bag[i].0.clone(), bag[i].1.clone()));
        i = i + 1;
    }
    proof {
        assert(label_view(out@) =~= label_view(bag@));
    }
    out
}

/// Copies an endpoint, keeping its mathematical value.
pub fn clone_endpoint(e: &Endpoint) -> (r: Endpoint)
    ensures
        r@ == e@,
{
    let labels = match &e.labels {
        None => None,
        Some(bag) => Some(clone_bag(bag)),
    };
    Endpoint { host: e.host.clone(), port: e.port, labels }
}

/// Copies a list of endpoints, keeping their mathematical values.
pub fn clone_endpoints(es: &Vec<Endpoint>) -> (r: Vec<Endpoint>)
    ensures
        r@.map_values(|e: Endpoint| e@) == es@.map_values(|e: Endpoint| e@),
{
    let mut out: Vec<Endpoint> = Vec::new();
    let n = es.len();
    let mut i: usize = 0;
    while i < n
        invariant
            n == es@.len(),
            i <= n,
            out@.len() == i,
            forall|j: int| 0 <= j < i ==> (#[trigger] out@[j])@ == es@[j]@,
        decreases n - i,
    {
        out.push(clone_endpoint(&es[i]));
        i = i + 1;
    }
    proof {
        assert(out@.map_values(|e: Endpoint| e@) =~= es@.map_values(|e: Endpoint| e@));
    }
    out
}

} // verus!
