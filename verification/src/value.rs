use vstd::prelude::*;

verus! {

/// The mathematical model of a configuration tree: a tagged union of a unit
/// (absent) value, scalars, an optional value, an ordered sequence, and a
/// table of key/value pairs. Keys are themselves values (conventionally
/// text); a table keeps its entries in insertion order, and lookup goes by
/// key equality, not position.
pub enum SpecValue {
    Unit,
    Bool(bool),
    Char(char),
    Int(int),
    Text(Seq<char>),
    Maybe(Option<Box<SpecValue>>),
    List(Seq<SpecValue>),
    Table(Seq<(SpecValue, SpecValue)>),
}

/// A configuration value tree. Each node owns its children; there are no
/// cycles. Tables hold their entries as an ordered list of key/value pairs.
#[derive(Debug, PartialEq)]
pub enum ConfigValue {
    Unit,
    Bool(bool),
    Char(char),
    Int(i64),
    Text(String),
    Maybe(Option<Box<ConfigValue>>),
    List(Vec<ConfigValue>),
    Table(Vec<(ConfigValue, ConfigValue)>),
}

/// The model of a sequence of child values.
pub open spec fn view_list(s: Seq<ConfigValue>) -> Seq<SpecValue>
    decreases s,
{
    if s.len() == 0 {
        Seq::empty()
    } else {
        seq![value_view(s[0])] + view_list(s.subrange(1, s.len() as int))
    }
}

/// The model of a table's entry list.
pub open spec fn view_entries(s: Seq<(ConfigValue, ConfigValue)>) -> Seq<(SpecValue, SpecValue)>
    decreases s,
{
    if s.len() == 0 {
        Seq::empty()
    } else {
        seq![(value_view(s[0].0), value_view(s[0].1))] + view_entries(s.subrange(1, s.len() as int))
    }
}

/// The model of a value tree.
pub open spec fn value_view(v: ConfigValue) -> SpecValue
    decreases v,
{
    match v {
        ConfigValue::Unit => SpecValue::Unit,
        ConfigValue::Bool(b) => SpecValue::Bool(b),
        ConfigValue::Char(c) => SpecValue::Char(c),
        ConfigValue::Int(i) => SpecValue::Int(i as int),
        ConfigValue::Text(s) => SpecValue::Text(s@),
        ConfigValue::Maybe(o) => SpecValue::Maybe(
            match o {
                Some(b) => Some(Box::new(value_view(*b))),
                None => None,
            },
        ),
        ConfigValue::List(vs) => SpecValue::List(view_list(vs@)),
        ConfigValue::Table(es) => SpecValue::Table(view_entries(es@)),
    }
}

impl View for ConfigValue {
    type V = SpecValue;

    open spec fn view(&self) -> SpecValue {
        value_view(*self)
    }
}

/// The elements of a viewed child sequence are the children's models.
pub(crate) proof fn lemma_view_list_index(s: Seq<ConfigValue>)
    ensures
        view_list(s).len() == s.len(),
        forall|i: int| 0 <= i < s.len() ==> view_list(s)[i] == value_view(#[trigger] s[i]),
    decreases s,
{
    if s.len() > 0 {
        lemma_view_list_index(s.subrange(1, s.len() as int));
        assert forall|i: int| 0 <= i < s.len() implies view_list(s)[i] == value_view(
            #[trigger] s[i],
        ) by {
            if i > 0 {
                assert(s.subrange(1, s.len() as int)[i - 1] == s[i]);
            }
        }
    }
}

/// The elements of a viewed entry list are the entries' models, pairwise.
pub(crate) proof fn lemma_view_entries_index(s: Seq<(ConfigValue, ConfigValue)>)
    ensures
        view_entries(s).len() == s.len(),
        forall|i: int|
            0 <= i < s.len() ==> view_entries(s)[i] == (
                value_view(#[trigger] s[i].0),
                value_view(s[i].1),
            ),
    decreases s,
{
    if s.len() > 0 {
        lemma_view_entries_index(s.subrange(1, s.len() as int));
        assert forall|i: int| 0 <= i < s.len() implies view_entries(s)[i] == (
            value_view(#[trigger] s[i].0),
            value_view(s[i].1),
        ) by {
            if i > 0 {
                assert(s.subrange(1, s.len() as int)[i - 1] == s[i]);
            }
        }
    }
}

/// Pairwise distinct keys in an entry list.
pub open spec fn unique_keys(entries: Seq<(SpecValue, SpecValue)>) -> bool {
    forall|i: int, j: int|
        0 <= i < j < entries.len() ==> (#[trigger] entries[i]).0 != (#[trigger] entries[j]).0
}

/// A well-formed tree: every table in it has pairwise distinct keys, the
/// shape that parsing yields and that keyed lookup presumes.
pub open spec fn wf(v: SpecValue) -> bool
    decreases v,
{
    match v {
        SpecValue::Maybe(o) => match o {
            Some(b) => wf(*b),
            None => true,
        },
        SpecValue::List(vs) => forall|i: int| 0 <= i < vs.len() ==> wf(#[trigger] vs[i]),
        SpecValue::Table(es) => unique_keys(es) && forall|i: int|
            0 <= i < es.len() ==> wf((#[trigger] es[i]).0) && wf(es[i].1),
        _ => true,
    }
}

impl ConfigValue {
    /// Structural equality of two value trees: the key comparison that the
    /// merger uses to decide whether a key already exists.
    pub fn deep_eq(&self, other: &ConfigValue) -> (r: bool)
        ensures
            r == (self@ == other@),
        decreases *self,
    {
        match (self, other) {
            (ConfigValue::Unit, ConfigValue::Unit) => true,
            (ConfigValue::Bool(a), ConfigValue::Bool(b)) => *a == *b,
            (ConfigValue::Char(a), ConfigValue::Char(b)) => *a == *b,
            (ConfigValue::Int(a), ConfigValue::Int(b)) => *a == *b,
            (ConfigValue::Text(a), ConfigValue::Text(b)) => *a == *b,
            (ConfigValue::Maybe(a), ConfigValue::Maybe(b)) => match (a, b) {
                (None, None) => true,
                (Some(x), Some(y)) => x.deep_eq(y),
                _ => false,
            },
            (ConfigValue::List(a), ConfigValue::List(b)) => {
                proof {
                    lemma_view_list_index(a@);
                    lemma_view_list_index(b@);
                }
                if a.len() != b.len() {
                    return false;
                }
                for i in 0..a.len()
                    invariant
                        a@.len() == b@.len(),
                        i <= a@.len(),
                        forall|j: int| 0 <= j < i ==> view_list(a@)[j] == view_list(b@)[j],
                        view_list(a@).len() == a@.len(),
                        view_list(b@).len() == b@.len(),
                        forall|j: int|
                            0 <= j < a@.len() ==> view_list(a@)[j] == value_view(#[trigger] a@[j]),
                        forall|j: int|
                            0 <= j < b@.len() ==> view_list(b@)[j] == value_view(#[trigger] b@[j]),
                        *self == ConfigValue::List(*a),
                        *other == ConfigValue::List(*b),
                        self@ == SpecValue::List(view_list(a@)),
                        other@ == SpecValue::List(view_list(b@)),
                {
                    proof {
                        assert(decreases_to!(*self => *a));
                        assert(decreases_to!(*a => a@));
                        assert(decreases_to!(a@ => a@[i as int]));
                    }
                    if !a[i].deep_eq(&b[i]) {
                        return false;
                    }
                }
                proof {
                    assert(view_list(a@) =~= view_list(b@));
                }
                true
            },
            (ConfigValue::Table(a), ConfigValue::Table(b)) => {
                proof {
                    lemma_view_entries_index(a@);
                    lemma_view_entries_index(b@);
                }
                if a.len() != b.len() {
                    return false;
                }
                for i in 0..a.len()
                    invariant
                        a@.len() == b@.len(),
                        i <= a@.len(),
                        forall|j: int| 0 <= j < i ==> view_entries(a@)[j] == view_entries(b@)[j],
                        view_entries(a@).len() == a@.len(),
                        view_entries(b@).len() == b@.len(),
                        forall|j: int|
                            0 <= j < a@.len() ==> view_entries(a@)[j] == (
                                value_view(#[trigger] a@[j].0),
                                value_view(a@[j].1),
                            ),
                        forall|j: int|
                            0 <= j < b@.len() ==> view_entries(b@)[j] == (
                                value_view(#[trigger] b@[j].0),
                                value_view(b@[j].1),
                            ),
                        *self == ConfigValue::Table(*a),
                        *other == ConfigValue::Table(*b),
                        self@ == SpecValue::Table(view_entries(a@)),
                        other@ == SpecValue::Table(view_entries(b@)),
                {
                    proof {
                        assert(decreases_to!(*self => *a));
                        assert(decreases_to!(*a => a@));
                        assert(decreases_to!(a@ => a@[i as int]));
                        assert(decreases_to!(a@[i as int] => a@[i as int].0));
                        assert(decreases_to!(a@[i as int] => a@[i as int].1));
                    }
                    if !a[i].0.deep_eq(&b[i].0) {
                        return false;
                    }
                    if !a[i].1.deep_eq(&b[i].1) {
                        return false;
                    }
                }
                proof {
                    assert(view_entries(a@) =~= view_entries(b@));
                }
                true
            },
            _ => false,
        }
    }

    /// A fresh tree with the same model.
    pub fn deep_clone(&self) -> (r: ConfigValue)
        ensures
            r@ == self@,
        decreases *self,
    {
        match self {
            ConfigValue::Unit => ConfigValue::Unit,
            ConfigValue::Bool(b) => ConfigValue::Bool(*b),
            ConfigValue::Char(c) => ConfigValue::Char(*c),
            ConfigValue::Int(i) => ConfigValue::Int(*i),
            ConfigValue::Text(s) => ConfigValue::Text(s.clone()),
            ConfigValue::Maybe(o) => ConfigValue::Maybe(
                match o {
                    Some(b) => Some(Box::new(b.deep_clone())),
                    None => None,
                },
            ),
            ConfigValue::List(vs) => {
                let mut out: Vec<ConfigValue> = Vec::new();
                proof {
                    lemma_view_list_index(vs@);
                }
                for i in 0..vs.len()
                    invariant
                        out@.len() == i,
                        forall|j: int| 0 <= j < i ==> value_view(#[trigger] out@[j]) == view_list(
                            vs@,
                        )[j],
                        view_list(vs@).len() == vs@.len(),
                        forall|j: int|
                            0 <= j < vs@.len() ==> view_list(vs@)[j] == value_view(
                                #[trigger] vs@[j],
                            ),
                        *self == ConfigValue::List(*vs),
                        self@ == SpecValue::List(view_list(vs@)),
                {
                    proof {
                        assert(decreases_to!(*self => *vs));
                        assert(decreases_to!(*vs => vs@));
                        assert(decreases_to!(vs@ => vs@[i as int]));
                    }
                    out.push(vs[i].deep_clone());
                }
                proof {
                    lemma_view_list_index(out@);
                    assert(out@.len() == vs@.len());
                    assert forall|j: int| 0 <= j < out@.len() implies view_list(out@)[j]
                        == view_list(vs@)[j] by {
                        assert(value_view(out@[j]) == view_list(vs@)[j]);
                    }
                    assert(view_list(out@) =~= view_list(vs@));
                }
                ConfigValue::List(out)
            },
            ConfigValue::Table(es) => {
                let mut out: Vec<(ConfigValue, ConfigValue)> = Vec::new();
                proof {
                    lemma_view_entries_index(es@);
                }
                for i in 0..es.len()
                    invariant
                        out@.len() == i,
                        forall|j: int|
                            0 <= j < i ==> (
                                value_view(#[trigger] out@[j].0),
                                value_view(out@[j].1),
                            ) == view_entries(es@)[j],
                        view_entries(es@).len() == es@.len(),
                        forall|j: int|
                            0 <= j < es@.len() ==> view_entries(es@)[j] == (
                                value_view(#[trigger] es@[j].0),
                                value_view(es@[j].1),
                            ),
                        *self == ConfigValue::Table(*es),
                        self@ == SpecValue::Table(view_entries(es@)),
                {
                    proof {
                        assert(decreases_to!(*self => *es));
                        assert(decreases_to!(*es => es@));
                        assert(decreases_to!(es@ => es@[i as int]));
                        assert(decreases_to!(es@[i as int] => es@[i as int].0));
                        assert(decreases_to!(es@[i as int] => es@[i as int].1));
                    }
                    out.push((es[i].0.deep_clone(), es[i].1.deep_clone()));
                }
                proof {
                    lemma_view_entries_index(out@);
                    assert(out@.len() == es@.len());
                    assert forall|j: int| 0 <= j < out@.len() implies view_entries(out@)[j]
                        == view_entries(es@)[j] by {
                        assert((value_view(out@[j].0), value_view(out@[j].1)) == view_entries(
                            es@,
                        )[j]);
                    }
                    assert(view_entries(out@) =~= view_entries(es@));
                }
                ConfigValue::Table(out)
            },
        }
    }
}

} // verus!
