//! YAML documents as the library reads them: the values that the properties are made of.

use vstd::prelude::*;

verus! {

/// A YAML value. Numbers are held by their text; tags by their text as written.
#[derive(Debug)]
pub enum YamlValue {
    Null,
    Bool(bool),
    Number(String),
    String(String),
    Sequence(Vec<YamlValue>),
    Mapping(Vec<(YamlValue, YamlValue)>),
    Tagged(String, Box<YamlValue>),
}

/// The mathematical model of a YAML value.
pub enum Yaml {
    Null,
    Bool(bool),
    Number(Seq<char>),
    Str(Seq<char>),
    Sequence(Seq<Yaml>),
    Mapping(Seq<(Yaml, Yaml)>),
    Tagged(Seq<char>, Box<Yaml>),
}

impl Yaml {
    /// This value is a string.
    pub open spec fn is_str(&self) -> bool {
        self is Str
    }

    /// The text of this value, if it is a string.
    pub open spec fn str_text(&self) -> Seq<char> {
        match self {
            Yaml::Str(s) => *s,
            _ => seq![],
        }
    }
}

impl YamlValue {
    /// The model of this value.
    pub open spec fn model(&self) -> Yaml
        decreases self,
    {
        match self {
            YamlValue::Null => Yaml::Null,
            YamlValue::Bool(b) => Yaml::Bool(*b),
            YamlValue::Number(n) => Yaml::Number(n@),
            YamlValue::String(s) => Yaml::Str(s@),
            YamlValue::Sequence(items) => Yaml::Sequence(models(items@)),
            YamlValue::Mapping(entries) => Yaml::Mapping(entry_models(entries@)),
            YamlValue::Tagged(tag, inner) => Yaml::Tagged(tag@, Box::new(inner.model())),
        }
    }
}

/// The models of a list of values.
pub open spec fn models(items: Seq<YamlValue>) -> Seq<Yaml>
    decreases items,
{
    if items.len() == 0 {
        seq![]
    } else {
        models(items.drop_last()).push(items.last().model())
    }
}

/// The models of a list of mapping entries.
pub open spec fn entry_models(entries: Seq<(YamlValue, YamlValue)>) -> Seq<(Yaml, Yaml)>
    decreases entries,
{
    if entries.len() == 0 {
        seq![]
    } else {
        entry_models(entries.drop_last()).push(
            (entries.last().0.model(), entries.last().1.model()),
        )
    }
}

/// Lemma: the models of a list of values are the list of their models.
pub proof fn lemma_models(items: Seq<YamlValue>)
    ensures
        models(items).len() == items.len(),
        forall|i: int| 0 <= i < items.len() ==> (#[trigger] models(items)[i]) == items[i].model(),
    decreases items.len(),
{
    if items.len() > 0 {
        lemma_models(items.drop_last());
        assert forall|i: int| 0 <= i < items.len() implies (#[trigger] models(items)[i])
            == items[i].model() by {
            if i < items.len() - 1 {
                assert(items.drop_last()[i] == items[i]);
            }
        }
    }
}

/// Lemma: the models of a list of entries are the list of their models.
pub proof fn lemma_entry_models(entries: Seq<(YamlValue, YamlValue)>)
    ensures
        entry_models(entries).len() == entries.len(),
        forall|i: int|
            0 <= i < entries.len() ==> (#[trigger] entry_models(entries)[i]) == (
                entries[i].0.model(),
                entries[i].1.model(),
            ),
    decreases entries.len(),
{
    if entries.len() > 0 {
        lemma_entry_models(entries.drop_last());
        assert forall|i: int| 0 <= i < entries.len() implies (#[trigger] entry_models(entries)[i])
            == (entries[i].0.model(), entries[i].1.model()) by {
            if i < entries.len() - 1 {
                assert(entries.drop_last()[i] == entries[i]);
            }
        }
    }
}

impl YamlValue {
    /// A copy of this value.
    #[verifier::loop_isolation(false)]
    pub fn copy(&self) -> (r: YamlValue)
        ensures
            r.model() == self.model(),
        decreases self,
    {
        match self {
            YamlValue::Null => YamlValue::Null,
            YamlValue::Bool(b) => YamlValue::Bool(*b),
            YamlValue::Number(n) => YamlValue::Number(n.clone()),
            YamlValue::String(s) => YamlValue::String(s.clone()),
            YamlValue::Sequence(items) => {
                let mut out: Vec<YamlValue> = Vec::new();
                let mut i: usize = 0;
                while i < items.len()
                    invariant
                        i <= items@.len(),
                        models(out@) == models(items@.take(i as int)),
                    decreases items.len() - i,
                {
                    proof {
                        assert(decreases_to!(self => *items));
                        assert(decreases_to!(*items => items@));
                        assert(decreases_to!(items@ => items@[i as int]));
                        assert(decreases_to!(self => items@[i as int]));
                    }
                    let c = items[i].copy();
                    let ghost before = out@;
                    out.push(c);
                    proof {
                        assert(out@.drop_last() =~= before);
                        assert(items@.take(i + 1).drop_last() =~= items@.take(i as int));
                    }
                    i = i + 1;
                }
                assert(items@.take(items@.len() as int) =~= items@);
                YamlValue::Sequence(out)
            },
            YamlValue::Mapping(entries) => {
                let mut out: Vec<(YamlValue, YamlValue)> = Vec::new();
                let mut i: usize = 0;
                while i < entries.len()
                    invariant
                        i <= entries@.len(),
                        entry_models(out@) == entry_models(entries@.take(i as int)),
                    decreases entries.len() - i,
                {
                    proof {
                        assert(decreases_to!(self => entries@[i as int].0));
                        assert(decreases_to!(self => entries@[i as int].1));
                    }
                    let k = entries[i].0.copy();
                    let v = entries[i].1.copy();
                    let ghost before = out@;
                    out.push((k, v));
                    proof {
                        assert(out@.drop_last() =~= before);
                        assert(entries@.take(i + 1).drop_last() =~= entries@.take(i as int));
                    }
                    i = i + 1;
                }
                assert(entries@.take(entries@.len() as int) =~= entries@);
                YamlValue::Mapping(out)
            },
            YamlValue::Tagged(tag, inner) => {
                let c = inner.copy();
                YamlValue::Tagged(tag.clone(), Box::new(c))
            },
        }
    }
}

} // verus!
