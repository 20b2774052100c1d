//! Configuration as the client receives it: an object of sections, each an
//! object of entries, turned into the calls that the configuration store
//! is to get.
use vstd::prelude::*;
use crate::json::JsonValue;

verus! {

/// One call to the configuration store.
#[derive(Debug)]
pub enum ConfigAction {
    /// Set a text entry.
    SetString { section: String, entry: String, value: String },
    /// Set an integer entry.
    SetInt { section: String, entry: String, number: i32 },
}

/// One call to the configuration store, as a mathematical value.
pub enum ConfigActionSpec {
    SetString { section: Seq<char>, entry: Seq<char>, value: Seq<char> },
    SetInt { section: Seq<char>, entry: Seq<char>, number: i32 },
}

impl View for ConfigAction {
    type V = ConfigActionSpec;

    open spec fn view(&self) -> ConfigActionSpec {
        match *self {
            ConfigAction::SetString { section, entry, value } => ConfigActionSpec::SetString {
                section: section@,
                entry: entry@,
                value: value@,
            },
            ConfigAction::SetInt { section, entry, number } => ConfigActionSpec::SetInt {
                section: section@,
                entry: entry@,
                number,
            },
        }
    }
}

pub open spec fn actions_view(v: Seq<ConfigAction>) -> Seq<ConfigActionSpec> {
    Seq::new(v.len(), |i: int| v[i]@)
}

/// The call that one entry of a section asks for: a text entry for a
/// string, an integer entry for an integer that fits 32 bits, and no call
/// for anything else.
pub open spec fn entry_action(section: Seq<char>, entry: Seq<char>, value: JsonValue) -> Option<
    ConfigActionSpec,
> {
    match value {
        JsonValue::Str(s) => Some(ConfigActionSpec::SetString { section, entry, value: s@ }),
        JsonValue::Int(x) => if i32::MIN <= x <= i32::MAX {
            Some(ConfigActionSpec::SetInt { section, entry, number: x as i32 })
        } else {
            None
        },
        _ => None,
    }
}

/// The calls that the entries of one section ask for, in order.
pub open spec fn section_actions(section: Seq<char>, entries: Seq<(String, JsonValue)>) -> Seq<
    ConfigActionSpec,
>
    decreases entries.len(),
{
    if entries.len() == 0 {
        Seq::empty()
    } else {
        let before = section_actions(section, entries.drop_last());
        match entry_action(section, entries.last().0@, entries.last().1) {
            Some(a) => before.push(a),
            None => before,
        }
    }
}

/// The calls that a configuration asks for: those of each entry that is
/// an object, taken as a section under the entry's key, in order. Entries
/// that are no objects ask for nothing.
pub open spec fn config_actions(sections: Seq<(String, JsonValue)>) -> Seq<ConfigActionSpec>
    decreases sections.len(),
{
    if sections.len() == 0 {
        Seq::empty()
    } else {
        let before = config_actions(sections.drop_last());
        match sections.last().1 {
            JsonValue::Object(entries) => before + section_actions(sections.last().0@, entries@),
            _ => before,
        }
    }
}

/// The calls that a configuration asks for. A configuration that is no
/// object asks for none.
pub fn set_config(config: &JsonValue) -> (r: Vec<ConfigAction>)
    ensures
        actions_view(r@) == (match *config {
            JsonValue::Object(sections) => config_actions(sections@),
            _ => Seq::empty(),
        }),
{
    let mut out: Vec<ConfigAction> = Vec::new();
    assert(actions_view(out@) =~= Seq::empty());
    let sections = match config {
        JsonValue::Object(sections) => sections,
        _ => {
            return out;
        },
    };
    let mut i: usize = 0;
    assert(sections@.take(0) =~= Seq::empty());
    while i < sections.len()
        invariant
            i <= sections@.len(),
            actions_view(out@) == config_actions(sections@.take(i as int)),
        decreases sections@.len() - i,
    {
        assert(sections@.take(i + 1).drop_last() =~= sections@.take(i as int));
        assert(sections@.take(i + 1).last() == sections@[i as int]);
        match &sections[i].1 {
            JsonValue::Object(entries) => {
                let ghost before = actions_view(out@);
                let ghost name = sections@[i as int].0@;
                let mut j: usize = 0;
                assert(entries@.take(0) =~= Seq::empty());
                assert(before + Seq::<ConfigActionSpec>::empty() =~= before);
                while j < entries.len()
                    invariant
                        i < sections@.len(),
                        j <= entries@.len(),
                        name == sections@[i as int].0@,
                        actions_view(out@) == before + section_actions(
                            name,
                            entries@.take(j as int),
                        ),
                    decreases entries@.len() - j,
                {
                    assert(entries@.take(j + 1).drop_last() =~= entries@.take(j as int));
                    assert(entries@.take(j + 1).last() == entries@[j as int]);
                    let ghost so_far = section_actions(name, entries@.take(j as int));
                    match &entries[j].1 {
                        JsonValue::Str(s) => {
                            let a = ConfigAction::SetString {
                                section: sections[i].0.clone(),
                                entry: entries[j].0.clone(),
                                value: s.clone(),
                            };
                            let ghost prev = actions_view(out@);
                            out.push(a);
                            assert(actions_view(out@) =~= prev.push(a@));
                            assert(prev.push(a@) =~= before + so_far.push(a@));
                        },
                        JsonValue::Int(x) => {
                            if -0x8000_0000 <= *x && *x <= 0x7fff_ffff {
                                let a = ConfigAction::SetInt {
                                    section: sections[i].0.clone(),
                                    entry: entries[j].0.clone(),
                                    number: *x as i32,
                                };
                                let ghost prev = actions_view(out@);
                                out.push(a);
                                assert(actions_view(out@) =~= prev.push(a@));
                                assert(prev.push(a@) =~= before + so_far.push(a@));
                            }
                        },
                        _ => {},
                    }
                    j = j + 1;
                }
                assert(entries@.take(entries@.len() as int) =~= entries@);
            },
            _ => {},
        }
        i = i + 1;
    }
    assert(sections@.take(sections@.len() as int) =~= sections@);
    out
}

} // verus!
