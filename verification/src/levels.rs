//! The order in which the levels of a session come.

use vstd::prelude::*;
use crate::level::LevelData;
use crate::text::same_text;

verus! {

/// The priority of a level whose name has no priority of its own: such
/// levels come after all others.
pub const DEFAULT_PRIORITY: u64 = 999_990_000;

/// The priority of the level called `name`. Levels come in the order of
/// their priorities, the smallest first.
pub open spec fn priority_of(name: Seq<char>) -> u64 {
    if name == "diamond"@ {
        10_000
    } else if name == "chevron"@ {
        20_000
    } else if name == "stonks"@ {
        30_000
    } else if name == "stripes"@ {
        40_000
    } else if name == "redirect"@ {
        50_000
    } else if name == "bevel"@ {
        60_000
    } else if name == "tricolor"@ {
        100_000
    } else if name == "beaut2"@ {
        110_000
    } else {
        DEFAULT_PRIORITY
    }
}

/// Looks up the priority of the level called `name`.
pub fn level_priority(name: &str) -> (priority: u64)
    ensures
        priority == priority_of(name@),
{
    if same_text(name, "diamond") {
        10_000
    } else if same_text(name, "chevron") {
        20_000
    } else if same_text(name, "stonks") {
        30_000
    } else if same_text(name, "stripes") {
        40_000
    } else if same_text(name, "redirect") {
        50_000
    } else if same_text(name, "bevel") {
        60_000
    } else if same_text(name, "tricolor") {
        100_000
    } else if same_text(name, "beaut2") {
        110_000
    } else {
        DEFAULT_PRIORITY
    }
}

/// The priority of a level.
pub open spec fn key_of(level: LevelData) -> u64 {
    priority_of(level.name@)
}

/// Whether the priorities along `levels` never fall.
pub open spec fn in_order(levels: Seq<LevelData>) -> bool {
    forall|i: int, j: int| 0 <= i <= j < levels.len() ==> key_of(levels[i]) <= key_of(levels[j])
}

/// The test for a level of priority `key`.
pub open spec fn has_key(key: u64) -> spec_fn(LevelData) -> bool {
    |level: LevelData| key_of(level) == key
}

/// Puts the levels into the order of their priorities. Levels of the same
/// priority stay in the order in which they came.
pub fn order_levels(levels: Vec<LevelData>) -> (ordered: Vec<LevelData>)
    ensures
        ordered@.len() == levels@.len(),
        in_order(ordered@),
        forall|key: u64| #[trigger] ordered@.filter(has_key(key)) == levels@.filter(has_key(key)),
{
    let ghost all = levels@;
    let mut rest = levels;
    let mut ordered: Vec<LevelData> = Vec::new();
    let ghost mut done: int = 0;
    while rest.len() > 0
        invariant
            0 <= done <= all.len(),
            rest@ == all.subrange(done, all.len() as int),
            ordered@.len() == done,
            in_order(ordered@),
            forall|key: u64| #[trigger]
                ordered@.filter(has_key(key)) == all.take(done).filter(has_key(key)),
        decreases rest@.len(),
    {
        let level = rest.remove(0);
        let priority = level_priority(level.name.as_str());
        let mut at: usize = ordered.len();
        while at > 0 && level_priority(ordered[at - 1].name.as_str()) > priority
            invariant
                at <= ordered@.len(),
                priority == key_of(level),
                forall|k: int| at <= k < ordered@.len() ==> key_of(ordered@[k]) > priority,
            decreases at,
        {
            at -= 1;
        }
        proof {
            lemma_insert_keeps_order(ordered@, at as int, level);
            assert forall|key: u64| #[trigger]
                ordered@.insert(at as int, level).filter(has_key(key)) == all.take(
                    done + 1,
                ).filter(has_key(key)) by {
                lemma_insert_filter(ordered@, at as int, level, key);
                assert(all.take(done + 1) =~= all.take(done) + seq![level]);
                Seq::filter_distributes_over_add(all.take(done), seq![level], has_key(key));
                lemma_filter_one(level, key);
            }
            assert(rest@ =~= all.subrange(done + 1, all.len() as int));
            done = done + 1;
        }
        ordered.insert(at, level);
    }
    assert(all.take(done) =~= all);
    ordered
}

/// Filtering a single level keeps it or drops it.
proof fn lemma_filter_one(level: LevelData, key: u64)
    ensures
        seq![level].filter(has_key(key)) == if key_of(level) == key {
            seq![level]
        } else {
            Seq::<LevelData>::empty()
        },
{
    reveal_with_fuel(Seq::filter, 2);
    assert(seq![level].drop_last() =~= Seq::<LevelData>::empty());
    assert(seq![level].filter(has_key(key)) =~= if key_of(level) == key {
        seq![level]
    } else {
        Seq::<LevelData>::empty()
    });
}

/// Filtering levels of which none passes the test leaves nothing.
proof fn lemma_filter_none(levels: Seq<LevelData>, key: u64)
    requires
        forall|k: int| 0 <= k < levels.len() ==> key_of(levels[k]) != key,
    ensures
        levels.filter(has_key(key)) == Seq::<LevelData>::empty(),
    decreases levels.len(),
{
    reveal_with_fuel(Seq::filter, 2);
    if levels.len() > 0 {
        lemma_filter_none(levels.drop_last(), key);
    }
}

/// A level that is put in behind all levels of at most its priority, and
/// before all of higher priority, joins the end of the levels of its own
/// priority and leaves the others as they were.
proof fn lemma_insert_filter(levels: Seq<LevelData>, at: int, level: LevelData, key: u64)
    requires
        0 <= at <= levels.len(),
        forall|k: int| at <= k < levels.len() ==> key_of(levels[k]) > key_of(level),
    ensures
        levels.insert(at, level).filter(has_key(key)) == levels.filter(has_key(key)) + seq![
            level,
        ].filter(has_key(key)),
{
    let front = levels.take(at);
    let back = levels.skip(at);
    assert(levels =~= front + back);
    assert(levels.insert(at, level) =~= front + seq![level] + back);
    Seq::filter_distributes_over_add(front, back, has_key(key));
    Seq::filter_distributes_over_add(front + seq![level], back, has_key(key));
    Seq::filter_distributes_over_add(front, seq![level], has_key(key));
    lemma_filter_one(level, key);
    if key_of(level) == key {
        lemma_filter_none(back, key);
    }
}

/// Putting a level in at such a place keeps the order.
proof fn lemma_insert_keeps_order(levels: Seq<LevelData>, at: int, level: LevelData)
    requires
        in_order(levels),
        0 <= at <= levels.len(),
        forall|k: int| at <= k < levels.len() ==> key_of(levels[k]) > key_of(level),
        at > 0 ==> key_of(levels[at - 1]) <= key_of(level),
    ensures
        in_order(levels.insert(at, level)),
{
    let after = levels.insert(at, level);
    assert forall|i: int, j: int| 0 <= i <= j < after.len() implies key_of(after[i]) <= key_of(
        after[j],
    ) by {
        if i < at && j == at {
            assert(key_of(levels[i]) <= key_of(levels[at - 1]));
        }
        if i < at && j > at {
            assert(key_of(levels[i]) <= key_of(levels[j - 1]));
        }
        if i > at {
            assert(key_of(levels[i - 1]) <= key_of(levels[j - 1]));
        }
    }
}

} // verus!
