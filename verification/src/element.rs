//! The element model: the two raw record kinds delivered by the external
//! data source, with every field that the pipeline reads held as a plain
//! value.

use vstd::prelude::*;

verus! {

/// A 64-bit IEEE-754 value held by its bit pattern.
///
/// The verified core never interprets the numeric value; it only stores it
/// and moves it. Callers outside the core convert with the standard
/// `to_bits` / `from_bits` pair.
#[derive(Clone, Copy, PartialEq, Eq, Structural, Debug)]
pub struct Real {
    pub bits: u64,
}

impl View for Real {
    type V = Real;

    open spec fn view(&self) -> Real {
        *self
    }
}

impl Real {
    pub fn new(bits: u64) -> (r: Real)
        ensures
            r.bits == bits,
    {
        Real { bits }
    }
}

/// One field of a raw record: absent, present with a well-typed value, or
/// present with a value of the wrong shape.
///
/// The distinction matters: an absent field is expected, high-volume data
/// sparsity and is filtered silently, while a present but ill-shaped value
/// signals a schema mismatch and is a fatal error.
#[derive(Clone, Debug)]
pub enum Field<T> {
    Absent,
    Val(T),
    Bad,
}

impl<T: View> View for Field<T> {
    type V = Field<T::V>;

    open spec fn view(&self) -> Field<T::V> {
        match self {
            Field::Absent => Field::Absent,
            Field::Val(t) => Field::Val(t@),
            Field::Bad => Field::Bad,
        }
    }
}

/// The tag mapping of a polyline record: string keys to string values,
/// in source order. Lookup returns the first pair with the wanted key.
#[derive(Clone, Debug)]
pub struct Tags {
    pub pairs: Vec<(String, String)>,
}

impl View for Tags {
    type V = Seq<(Seq<char>, Seq<char>)>;

    open spec fn view(&self) -> Seq<(Seq<char>, Seq<char>)> {
        self.pairs@.map_values(|p: (String, String)| (p.0@, p.1@))
    }
}

/// The value of the first pair carrying `key`, if any.
pub open spec fn tag_value(tags: Seq<(Seq<char>, Seq<char>)>, key: Seq<char>) -> Option<Seq<char>>
    decreases tags.len(),
{
    if tags.len() == 0 {
        None
    } else if tags[0].0 == key {
        Some(tags[0].1)
    } else {
        tag_value(tags.skip(1), key)
    }
}

proof fn lemma_tag_value_skip(tags: Seq<(Seq<char>, Seq<char>)>, key: Seq<char>, i: int)
    requires
        0 <= i <= tags.len(),
        forall|j: int| 0 <= j < i ==> tags[j].0 != key,
    ensures
        tag_value(tags, key) == tag_value(tags.skip(i), key),
    decreases i,
{
    if i > 0 {
        lemma_tag_value_skip(tags.skip(1), key, i - 1);
        assert(tags.skip(1).skip(i - 1) =~= tags.skip(i));
    } else {
        assert(tags.skip(0) =~= tags);
    }
}

impl Tags {
    pub fn new() -> (r: Tags)
        ensures
            r@ == Seq::<(Seq<char>, Seq<char>)>::empty(),
    {
        let r = Tags { pairs: Vec::new() };
        proof {
            assert(r@ =~= Seq::<(Seq<char>, Seq<char>)>::empty());
        }
        r
    }

    pub fn push(&mut self, key: String, value: String)
        ensures
            final(self)@ == old(self)@.push((key@, value@)),
    {
        self.pairs.push((key, value));
        proof {
            assert(self@ =~= old(self)@.push((key@, value@)));
        }
    }

    /// The value of the first pair carrying `key`, if any.
    pub fn get(&self, key: &String) -> (r: Option<&String>)
        ensures
            match r {
                Some(v) => tag_value(self@, key@) == Some(v@),
                None => tag_value(self@, key@) is None,
            },
    {
        let n = self.pairs.len();
        let mut i: usize = 0;
        while i < n
            invariant
                n == self.pairs.len(),
                0 <= i <= n,
                forall|j: int| 0 <= j < i ==> self@[j].0 != key@,
            decreases n - i,
        {
            if self.pairs[i].0 == *key {
                proof {
                    lemma_tag_value_skip(self@, key@, i as int);
                }
                return Some(&self.pairs[i].1);
            }
            i += 1;
        }
        proof {
            lemma_tag_value_skip(self@, key@, n as int);
            assert(self@.skip(n as int) =~= Seq::<(Seq<char>, Seq<char>)>::empty());
        }
        None
    }
}

/// A decoded record from the raw map extract: a point record or a polyline
/// record. Records of any other shape are excluded before this model.
///
/// A point record carries an id and a coordinate pair in degrees; a polyline
/// record carries an id, an ordered list of point ids, and an optional tag
/// mapping.
#[derive(Clone, Debug)]
pub enum Element {
    Node { id: Field<u64>, lat: Field<Real>, lon: Field<Real> },
    Way { id: Field<u64>, nodes: Field<Vec<u64>>, tags: Option<Tags> },
}

/// The mathematical shape of an `Element`.
pub enum ElementView {
    Node { id: Field<u64>, lat: Field<Real>, lon: Field<Real> },
    Way {
        id: Field<u64>,
        nodes: Field<Seq<u64>>,
        tags: Option<Seq<(Seq<char>, Seq<char>)>>,
    },
}

impl View for Element {
    type V = ElementView;

    open spec fn view(&self) -> ElementView {
        match self {
            Element::Node { id, lat, lon } => ElementView::Node {
                id: id@,
                lat: lat@,
                lon: lon@,
            },
            Element::Way { id, nodes, tags } => ElementView::Way {
                id: id@,
                nodes: nodes@,
                tags: match tags {
                    Some(t) => Some(t@),
                    None => None,
                },
            },
        }
    }
}

/// The views of a sequence of elements.
pub open spec fn views_of(elems: Seq<Element>) -> Seq<ElementView> {
    elems.map_values(|e: Element| e@)
}

} // verus!
