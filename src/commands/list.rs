use vstd::prelude::*;

use crate::config::{Config, PluginGroupType};
use crate::paths::{lemma_lex_total, lex_lt, str_eq, str_lt};

verus! {

/// Lists the plugin groups of both categories.
pub struct ListSubcommand {}

/// One line of the listing: its label, and the group it stands for.
pub struct ListEntry {
    pub label: String,
    pub group_type: PluginGroupType,
    /// The position of the group in the registry of its category.
    pub index: usize,
}

/// The label of a group called `name` of category `t`.
pub open spec fn label_of(name: Seq<char>, t: PluginGroupType) -> Seq<char> {
    match t {
        PluginGroupType::Effect => name + seq![' ', '(', 'E', 'F', 'F', 'E', 'C', 'T', ')'],
        PluginGroupType::Generator => name + seq![
            ' ',
            '(',
            'G',
            'E',
            'N',
            'E',
            'R',
            'A',
            'T',
            'O',
            'R',
            ')',
        ],
    }
}

/// The labels of `es` strictly increase.
pub open spec fn labels_sorted(es: Seq<ListEntry>) -> bool {
    forall|k: int| 0 <= k < es.len() - 1 ==> lex_lt(#[trigger] es[k].label@, es[k + 1].label@)
}

/// Some entry of `es` carries the label `l`.
pub open spec fn has_label(es: Seq<ListEntry>, l: Seq<char>) -> bool {
    exists|k: int| 0 <= k < es.len() && es[k].label@ == l
}

/// The entry `e` stands for a group of `config` and carries that group's label.
pub open spec fn entry_of(config: &Config, e: ListEntry) -> bool {
    let groups = config.registry(e.group_type).groups@;
    &&& e.index < groups.len()
    &&& e.label@ == label_of(groups[e.index as int].name@, e.group_type)
}

fn label(name: &str, t: PluginGroupType) -> (r: String)
    ensures
        r@ == label_of(name@, t),
{
    let mut r = name.to_owned();
    match t {
        PluginGroupType::Effect => {
            r.append(" (EFFECT)");
            proof {
                reveal_strlit(" (EFFECT)");
                assert(" (EFFECT)"@ =~= seq![' ', '(', 'E', 'F', 'F', 'E', 'C', 'T', ')']);
            }
        },
        PluginGroupType::Generator => {
            r.append(" (GENERATOR)");
            proof {
                reveal_strlit(" (GENERATOR)");
                assert(" (GENERATOR)"@ =~= seq![
                    ' ',
                    '(',
                    'G',
                    'E',
                    'N',
                    'E',
                    'R',
                    'A',
                    'T',
                    'O',
                    'R',
                    ')',
                ]);
            }
        },
    }
    r
}

fn insert_entry(entries: &mut Vec<ListEntry>, e: ListEntry)
    requires
        labels_sorted(old(entries)@),
    ensures
        labels_sorted(final(entries)@),
        final(entries)@.contains(e),
        forall|k: int|
            0 <= k < final(entries)@.len() ==> #[trigger] final(entries)@[k] == e || old(
                entries,
            )@.contains(final(entries)@[k]),
        forall|l: Seq<char>| has_label(old(entries)@, l) ==> has_label(final(entries)@, l),
{
    let ghost e0 = e;
    let ghost old_es = entries@;
    let mut p: usize = 0;
    while p < entries.len()
        invariant
            p <= entries@.len(),
            entries@ == old_es,
            forall|k: int| 0 <= k < p ==> lex_lt(#[trigger] entries@[k].label@, e.label@),
        ensures
            p <= entries@.len(),
            entries@ == old_es,
            forall|k: int| 0 <= k < p ==> lex_lt(#[trigger] entries@[k].label@, e.label@),
            p < entries@.len() ==> !lex_lt(entries@[p as int].label@, e.label@),
        decreases entries@.len() - p,
    {
        if !str_lt(entries[p].label.as_str(), e.label.as_str()) {
            break;
        }
        p = p + 1;
    }
    if p < entries.len() && str_eq(entries[p].label.as_str(), e.label.as_str()) {
        entries.set(p, e);
        assert(entries@[p as int] == e0);
        assert forall|l: Seq<char>| has_label(old_es, l) implies has_label(entries@, l) by {
            let k = choose|k: int| 0 <= k < old_es.len() && old_es[k].label@ == l;
            assert(entries@[k].label@ == l);
        }
        assert forall|k: int| 0 <= k < entries@.len() implies #[trigger] entries@[k] == e0
            || old_es.contains(entries@[k]) by {
            if k != p {
                assert(entries@[k] == old_es[k]);
            }
        }
    } else {
        if p < entries.len() {
            proof {
                lemma_lex_total(entries@[p as int].label@, e.label@);
            }
        }
        entries.insert(p, e);
        assert(entries@[p as int] == e0);
        assert forall|k: int| 0 <= k < entries@.len() - 1 implies lex_lt(
            #[trigger] entries@[k].label@,
            entries@[k + 1].label@,
        ) by {
            if k < p - 1 {
                assert(entries@[k] == old_es[k]);
                assert(entries@[k + 1] == old_es[k + 1]);
            } else if k == p - 1 {
                assert(entries@[k] == old_es[k]);
            } else if k == p {
                assert(entries@[k + 1] == old_es[k]);
            } else {
                assert(entries@[k] == old_es[k - 1]);
                assert(entries@[k + 1] == old_es[k]);
            }
        }
        assert forall|l: Seq<char>| has_label(old_es, l) implies has_label(entries@, l) by {
            let k = choose|k: int| 0 <= k < old_es.len() && old_es[k].label@ == l;
            if k < p {
                assert(entries@[k] == old_es[k]);
            } else {
                assert(entries@[k + 1] == old_es[k]);
            }
        }
        assert forall|k: int| 0 <= k < entries@.len() implies #[trigger] entries@[k] == e0
            || old_es.contains(entries@[k]) by {
            if k < p {
                assert(entries@[k] == old_es[k]);
            } else if k > p {
                assert(entries@[k] == old_es[k - 1]);
            }
        }
    }
}

impl ListSubcommand {
    /// The listing of `config`: one entry per label, in the order of the labels, for every group
    /// of both categories.
    pub fn entries(&self, config: &Config) -> (r: Vec<ListEntry>)
        ensures
            labels_sorted(r@),
            forall|k: int| 0 <= k < r@.len() ==> entry_of(config, #[trigger] r@[k]),
            forall|i: int|
                0 <= i < config.effects.groups@.len() ==> has_label(
                    r@,
                    label_of(#[trigger] config.effects.groups@[i].name@, PluginGroupType::Effect),
                ),
            forall|i: int|
                0 <= i < config.generators.groups@.len() ==> has_label(
                    r@,
                    label_of(
                        #[trigger] config.generators.groups@[i].name@,
                        PluginGroupType::Generator,
                    ),
                ),
    {
        let mut entries: Vec<ListEntry> = Vec::new();
        let mut i: usize = 0;
        while i < config.effects.groups.len()
            invariant
                i <= config.effects.groups@.len(),
                labels_sorted(entries@),
                forall|k: int| 0 <= k < entries@.len() ==> entry_of(config, #[trigger] entries@[k]),
                forall|j: int|
                    0 <= j < i ==> has_label(
                        entries@,
                        label_of(#[trigger] config.effects.groups@[j].name@, PluginGroupType::Effect),
                    ),
            decreases config.effects.groups@.len() - i,
        {
            let t = PluginGroupType::Effect;
            let e = ListEntry { label: label(config.effects.groups[i].name.as_str(), t), group_type: t, index: i };
            let ghost e0 = e;
            let ghost before = entries@;
            insert_entry(&mut entries, e);
            assert forall|k: int| 0 <= k < entries@.len() implies entry_of(config, #[trigger] entries@[k]) by {
                if entries@[k] != e0 {
                    let m = choose|m: int| 0 <= m < before.len() && before[m] == entries@[k];
                    assert(entry_of(config, before[m]));
                }
            }
            let ghost m = choose|m: int| 0 <= m < entries@.len() && entries@[m] == e0;
            assert(entries@[m].label@ == e0.label@);
            i = i + 1;
        }
        let mut i: usize = 0;
        while i < config.generators.groups.len()
            invariant
                i <= config.generators.groups@.len(),
                labels_sorted(entries@),
                forall|k: int| 0 <= k < entries@.len() ==> entry_of(config, #[trigger] entries@[k]),
                forall|j: int|
                    0 <= j < config.effects.groups@.len() ==> has_label(
                        entries@,
                        label_of(#[trigger] config.effects.groups@[j].name@, PluginGroupType::Effect),
                    ),
                forall|j: int|
                    0 <= j < i ==> has_label(
                        entries@,
                        label_of(
                            #[trigger] config.generators.groups@[j].name@,
                            PluginGroupType::Generator,
                        ),
                    ),
            decreases config.generators.groups@.len() - i,
        {
            let t = PluginGroupType::Generator;
            let e = ListEntry { label: label(config.generators.groups[i].name.as_str(), t), group_type: t, index: i };
            let ghost e0 = e;
            let ghost before = entries@;
            insert_entry(&mut entries, e);
            assert forall|k: int| 0 <= k < entries@.len() implies entry_of(config, #[trigger] entries@[k]) by {
                if entries@[k] != e0 {
                    let m = choose|m: int| 0 <= m < before.len() && before[m] == entries@[k];
                    assert(entry_of(config, before[m]));
                }
            }
            let ghost m = choose|m: int| 0 <= m < entries@.len() && entries@[m] == e0;
            assert(entries@[m].label@ == e0.label@);
            i = i + 1;
        }
        entries
    }
}

} // verus!
