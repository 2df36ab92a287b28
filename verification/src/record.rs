//! The records exchanged with filters and with the gateway's own clients.

use vstd::prelude::*;

verus! {

/// The mathematical value of one record: its (name, value) pairs in order.
pub type Props = Seq<(Seq<char>, Seq<char>)>;

/// The name of the property by which records are told apart.
pub open spec fn url_name() -> Seq<char> {
    "url"@
}

/// The value of the first property named `url`, if the record has one.
pub open spec fn url_of(p: Props) -> Option<Seq<char>>
    decreases p.len(),
{
    if p.len() == 0 {
        None
    } else if p[0].0 == url_name() {
        Some(p[0].1)
    } else {
        url_of(p.drop_first())
    }
}

/// The values of a sequence of records.
pub open spec fn records(v: Seq<Embryo>) -> Seq<Props> {
    Seq::new(v.len(), |i: int| v[i]@)
}

/// A record: an ordered collection of (name, value) pairs. No schema is
/// imposed; by convention the property named `url` identifies the record.
#[derive(Clone, Debug, PartialEq, Eq)]
pub struct Embryo {
    pub properties: Vec<(String, String)>,
}

/// An ordered sequence of records.
#[derive(Clone, Debug, PartialEq, Eq)]
pub struct EmbryoList {
    pub embryo_list: Vec<Embryo>,
}

impl View for Embryo {
    type V = Props;

    open spec fn view(&self) -> Props {
        Seq::new(self.properties@.len(), |i: int| (self.properties@[i].0@, self.properties@[i].1@))
    }
}

impl View for EmbryoList {
    type V = Seq<Props>;

    open spec fn view(&self) -> Seq<Props> {
        records(self.embryo_list@)
    }
}

/// Leading properties that are not named `url` do not matter: the search
/// may start behind them.
pub proof fn lemma_url_of_skip(p: Props, i: int)
    requires
        0 <= i <= p.len(),
        forall|j: int| 0 <= j < i ==> p[j].0 != url_name(),
    ensures
        url_of(p) == url_of(p.skip(i)),
    decreases i,
{
    if i > 0 {
        lemma_url_of_skip(p, i - 1);
        assert(p.skip(i - 1).drop_first() =~= p.skip(i));
    } else {
        assert(p.skip(0) =~= p);
    }
}

impl Embryo {
    /// A record with the given properties.
    pub fn new(properties: Vec<(String, String)>) -> (e: Self)
        ensures
            e.properties == properties,
    {
        Embryo { properties }
    }

    /// The value of the first property whose name is `name`, where `name`
    /// is the text `url`.
    pub(crate) fn url_by(&self, name: &String) -> (r: Option<&String>)
        requires
            name@ == url_name(),
        ensures
            match r {
                Some(u) => url_of(self@) == Some(u@),
                None => url_of(self@) is None,
            },
    {
        let mut i: usize = 0;
        while i < self.properties.len()
            invariant
                i <= self.properties@.len(),
                name@ == url_name(),
                forall|j: int| 0 <= j < i ==> self@[j].0 != url_name(),
            decreases self.properties@.len() - i,
        {
            if self.properties[i].0 == *name {
                proof {
                    lemma_url_of_skip(self@, i as int);
                    assert(self@.skip(i as int)[0] == self@[i as int]);
                }
                return Some(&self.properties[i].1);
            }
            i = i + 1;
        }
        proof {
            lemma_url_of_skip(self@, self@.len() as int);
        }
        None
    }

    /// The value of the record's first `url` property, if it has one.
    pub fn url(&self) -> (r: Option<&String>)
        ensures
            match r {
                Some(u) => url_of(self@) == Some(u@),
                None => url_of(self@) is None,
            },
    {
        let name: String = "url".to_owned();
        self.url_by(&name)
    }
}

impl EmbryoList {
    /// A list with the given records.
    pub fn new(embryo_list: Vec<Embryo>) -> (l: Self)
        ensures
            l.embryo_list == embryo_list,
    {
        EmbryoList { embryo_list }
    }

    /// The number of records.
    pub fn len(&self) -> (n: usize)
        ensures
            n == self@.len(),
    {
        self.embryo_list.len()
    }
}

} // verus!
