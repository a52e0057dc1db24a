//! Values for the parameters of a statement.
use vstd::prelude::*;
use crate::plain::no_items;
use crate::sql::name_map::NameMap;
use crate::value::{EngineValue, ValueModel};

verus! {

/// The parameters of a statement, by place or by name.
pub enum SqlParams {
    Positional(Vec<EngineValue>),
    Named(NameMap<EngineValue>),
}

/// What [`SqlParams`] are, mathematically.
pub enum ParamsModel {
    Positional(Seq<ValueModel>),
    Named(Map<Seq<char>, ValueModel>),
}

impl DeepView for SqlParams {
    type V = ParamsModel;

    open spec fn deep_view(&self) -> ParamsModel {
        match self {
            SqlParams::Positional(values) => ParamsModel::Positional(values.deep_view()),
            SqlParams::Named(values) => ParamsModel::Named(values.deep_view()),
        }
    }
}

/// Entries as a map: the last of those with one name counts.
pub open spec fn last_map(entries: Seq<(Seq<char>, ValueModel)>) -> Map<Seq<char>, ValueModel>
    decreases entries.len(),
{
    if entries.len() == 0 {
        Map::empty()
    } else {
        last_map(entries.drop_last()).insert(entries.last().0, entries.last().1)
    }
}

impl Default for SqlParams {
    fn default() -> (r: SqlParams)
        ensures
            r.deep_view() == ParamsModel::Positional(Seq::empty()),
    {
        SqlParams::Positional(no_items())
    }
}

impl SqlParams {
    pub fn positional(values: Vec<EngineValue>) -> (r: SqlParams)
        ensures
            r.deep_view() == ParamsModel::Positional(values.deep_view()),
    {
        SqlParams::Positional(values)
    }

    pub fn named(entries: Vec<(String, EngineValue)>) -> (r: SqlParams)
        ensures
            r.deep_view() == ParamsModel::Named(last_map(entries.deep_view())),
    {
        let ghost all = entries.deep_view();
        let mut values: NameMap<EngineValue> = NameMap::new();
        let mut rest = entries;
        let ghost mut done: int = 0;
        proof {
            assert(rest.deep_view() =~= all.skip(0));
            assert(all.take(0) =~= Seq::empty());
        }
        while rest.len() > 0
            invariant
                0 <= done <= all.len(),
                rest.deep_view() == all.skip(done),
                values.deep_view() == last_map(all.take(done)),
            decreases rest.len(),
        {
            let ghost before = rest;
            let (name, value) = rest.remove(0);
            proof {
                assert(before.len() == before.deep_view().len());
                assert(all.skip(done)[0] == all[done]);
                assert(before.deep_view()[0] == (name@, value.deep_view()));
                assert(before.deep_view()[0] == all[done]);
                assert(rest.deep_view() =~= all.skip(done + 1)) by {
                    assert forall|j: int| 0 <= j < rest.len() implies rest.deep_view()[j]
                        == all.skip(done + 1)[j] by {
                        assert(rest@[j] == before@[j + 1]);
                        assert(before.deep_view()[j + 1] == all.skip(done)[j + 1]);
                    }
                }
                assert(all.take(done + 1).drop_last() =~= all.take(done));
                assert(all.take(done + 1).last() == all[done]);
                done = done + 1;
            }
            values.insert(name, value);
        }
        proof {
            assert(rest.deep_view().len() == 0);
            assert(all.take(done) =~= all);
        }
        SqlParams::Named(values)
    }

    /// The parameter at a place, counted from one.
    pub fn get_positional(&self, one_based: usize) -> (r: Option<&EngineValue>)
        ensures
            match self.deep_view() {
                ParamsModel::Positional(values) => if 1 <= one_based <= values.len() {
                    r matches Some(v) && v.deep_view() == values[one_based - 1]
                } else {
                    r is None
                },
                ParamsModel::Named(_) => r is None,
            },
    {
        match self {
            SqlParams::Positional(values) => {
                assert(values.len() == values.deep_view().len());
                if 1 <= one_based && one_based <= values.len() {
                    Some(&values[one_based - 1])
                } else {
                    None
                }
            },
            SqlParams::Named(_) => None,
        }
    }

    /// The parameter of a name.
    pub fn get_named(&self, name: &str) -> (r: Option<&EngineValue>)
        ensures
            match self.deep_view() {
                ParamsModel::Named(values) => if values.contains_key(name@) {
                    r matches Some(v) && v.deep_view() == values[name@]
                } else {
                    r is None
                },
                ParamsModel::Positional(_) => r is None,
            },
    {
        match self {
            SqlParams::Named(values) => values.get(name),
            SqlParams::Positional(_) => None,
        }
    }
}

impl From<Vec<EngineValue>> for SqlParams {
    fn from(values: Vec<EngineValue>) -> (r: SqlParams) {
        SqlParams::Positional(values)
    }
}

impl vstd::std_specs::convert::FromSpecImpl<Vec<EngineValue>> for SqlParams {
    open spec fn obeys_from_spec() -> bool {
        true
    }

    open spec fn from_spec(values: Vec<EngineValue>) -> SqlParams {
        SqlParams::Positional(values)
    }
}

impl From<NameMap<EngineValue>> for SqlParams {
    fn from(values: NameMap<EngineValue>) -> (r: SqlParams) {
        SqlParams::Named(values)
    }
}

impl vstd::std_specs::convert::FromSpecImpl<NameMap<EngineValue>> for SqlParams {
    open spec fn obeys_from_spec() -> bool {
        true
    }

    open spec fn from_spec(values: NameMap<EngineValue>) -> SqlParams {
        SqlParams::Named(values)
    }
}

} // verus!
