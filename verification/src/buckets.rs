//! The list of buckets.
use crate::selection::ListSelection;
use vstd::prelude::*;

verus! {

/// The names of the listed buckets: a missing name counts as empty, and
/// empty names are left out.
pub open spec fn spec_bucket_names(names: Seq<Option<String>>) -> Seq<Seq<char>>
    decreases names.len(),
{
    if names.len() == 0 {
        Seq::empty()
    } else {
        let rest = spec_bucket_names(names.drop_last());
        match names.last() {
            Some(n) => if n@.len() > 0 {
                rest.push(n@)
            } else {
                rest
            },
            None => rest,
        }
    }
}

/// The bucket names to show, from the names a listing gave.
pub fn bucket_names(names: Vec<Option<String>>) -> (r: Vec<String>)
    ensures
        r@.map_values(|s: String| s@) == spec_bucket_names(names@),
{
    let mut r: Vec<String> = Vec::new();
    let mut i: usize = 0;
    while i < names.len()
        invariant
            i <= names.len(),
            r@.map_values(|s: String| s@) == spec_bucket_names(names@.take(i as int)),
        decreases names.len() - i,
    {
        let name: String = match &names[i] {
            Some(n) => n.clone(),
            None => String::new(),
        };
        proof {
            assert(names@.take(i + 1).drop_last() =~= names@.take(i as int));
        }
        if name.unicode_len() > 0 {
            r.push(name);
        }
        i = i + 1;
        assert(r@.map_values(|s: String| s@) =~= spec_bucket_names(names@.take(i as int)));
    }
    assert(names@.take(names.len() as int) =~= names@);
    r
}

/// The bucket pane: the bucket names, the selection and the focus.
#[derive(Debug, Clone)]
pub struct BucketsWidget {
    pub list: Vec<String>,
    pub state: ListSelection,
    pub is_active: bool,
}

impl BucketsWidget {
    /// A focused pane over `list`, with nothing selected.
    pub fn new(list: Vec<String>) -> (r: Self)
        ensures
            r.list == list,
            r.state.selected is None,
            r.state.offset == 0,
            r.is_active,
    {
        Self { list, state: ListSelection::new(), is_active: true }
    }

    /// Gives or takes the focus.
    pub fn set_active(&mut self, is_active: bool)
        ensures
            final(self).is_active == is_active,
            final(self).list == old(self).list,
            final(self).state == old(self).state,
    {
        self.is_active = is_active;
    }
}

} // verus!
