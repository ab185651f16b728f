//! Header fields as a map from names to values that keeps the order in which names came.
use vstd::prelude::*;
use crate::http::{find_name, header_insert, header_view};

verus! {

/// No name occurs twice.
pub open spec fn names_distinct(h: Seq<(Seq<char>, Seq<char>)>) -> bool {
    forall|i: int, j: int| 0 <= i < j < h.len() ==> #[trigger] h[i].0 != #[trigger] h[j].0
}

/// Header fields: name and value, in the order in which the names first came, each name
/// at most once.
#[derive(Debug)]
pub struct HttpHeader {
    fields: Vec<(String, String)>,
}

impl View for HttpHeader {
    type V = Seq<(Seq<char>, Seq<char>)>;

    closed spec fn view(&self) -> Seq<(Seq<char>, Seq<char>)> {
        header_view(self.fields@)
    }
}

proof fn lemma_find_name_bounds(h: Seq<(Seq<char>, Seq<char>)>, n: Seq<char>, i: int)
    ensures
        find_name(h, n, i) matches Some(k) ==> 0 <= k < h.len() && h[k].0 == n,
        find_name(h, n, i) is None ==> forall|j: int| 0 <= i <= j < h.len() ==> #[trigger] h[j].0 != n,
    decreases h.len() - i,
{
    if 0 <= i < h.len() && h[i].0 != n {
        lemma_find_name_bounds(h, n, i + 1);
    }
}

impl HttpHeader {
    #[verifier::type_invariant]
    spec fn names_once(self) -> bool {
        names_distinct(header_view(self.fields@))
    }

    /// A header without fields.
    pub fn new() -> (r: Self)
        ensures
            r@ == Seq::<(Seq<char>, Seq<char>)>::empty(),
    {
        let r = HttpHeader { fields: Vec::new() };
        assert(r@ =~= Seq::<(Seq<char>, Seq<char>)>::empty());
        r
    }

    /// Sets field `name` to `value`: the value is replaced where the name is present, and
    /// the field is appended where it is not. Gives back the value that was replaced.
    pub fn insert(&mut self, name: String, value: String) -> (replaced: Option<String>)
        ensures
            final(self)@ == header_insert(old(self)@, name@, value@),
            match find_name(old(self)@, name@, 0) {
                Some(i) => replaced matches Some(o) && o@ == old(self)@[i].1,
                None => replaced is None,
            },
    {
        proof {
            use_type_invariant(&*self);
        }
        let ghost hv = self@;
        let mut v: Vec<(String, String)> = Vec::new();
        std::mem::swap(&mut v, &mut self.fields);
        assert(header_view(v@) == hv);
        proof {
            lemma_find_name_bounds(hv, name@, 0);
        }
        let mut i: usize = 0;
        while i < v.len()
            invariant
                hv == header_view(v@),
                hv == old(self)@,
                names_distinct(hv),
                i <= v@.len(),
                find_name(hv, name@, 0) == find_name(hv, name@, i as int),
            decreases v.len() - i,
        {
            if v[i].0 == name {
                let old_value = v[i].1.clone();
                v.set(i, (name, value));
                proof {
                    assert(hv[i as int].0 == name@);
                    assert(header_view(v@) =~= hv.update(i as int, (name@, value@)));
                    let r = header_view(v@);
                    assert forall|a: int, b: int| 0 <= a < b < r.len() implies #[trigger] r[a].0
                        != #[trigger] r[b].0 by {
                        assert(r[a].0 == hv[a].0);
                        assert(r[b].0 == hv[b].0);
                    }
                }
                self.fields = v;
                return Some(old_value);
            }
            i = i + 1;
        }
        v.push((name, value));
        proof {
            assert(header_view(v@) =~= hv.push((name@, value@)));
            let r = header_view(v@);
            assert forall|a: int, b: int| 0 <= a < b < r.len() implies #[trigger] r[a].0
                != #[trigger] r[b].0 by {
                assert(r[a] == hv[a]);
                if b < hv.len() {
                    assert(r[b] == hv[b]);
                } else {
                    assert(r[b].0 == name@);
                }
            }
        }
        self.fields = v;
        None
    }

    /// The value of field `name`, where there is one.
    pub fn get(&self, name: &str) -> (r: Option<&String>)
        ensures
            match find_name(self@, name@, 0) {
                Some(i) => r matches Some(v) && v@ == self@[i].1,
                None => r is None,
            },
    {
        let key = name.to_owned();
        let ghost hv = self@;
        let mut i: usize = 0;
        while i < self.fields.len()
            invariant
                hv == header_view(self.fields@),
                i <= self.fields@.len(),
                key@ == name@,
                find_name(hv, name@, 0) == find_name(hv, name@, i as int),
            decreases self.fields.len() - i,
        {
            if self.fields[i].0 == key {
                return Some(&self.fields[i].1);
            }
            i = i + 1;
        }
        None
    }

    /// How many fields there are.
    pub fn len(&self) -> (r: usize)
        ensures
            r == self@.len(),
            names_distinct(self@),
    {
        proof {
            use_type_invariant(self);
        }
        self.fields.len()
    }

    /// The fields, in order.
    pub fn fields(&self) -> (r: &Vec<(String, String)>)
        ensures
            header_view(r@) == self@,
            names_distinct(self@),
    {
        proof {
            use_type_invariant(self);
        }
        &self.fields
    }
}

} // verus!
