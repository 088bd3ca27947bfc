//! Properties of the weighing that hold for every database and every set of
//! active rules.
use vstd::prelude::*;
use crate::dataset::{WallpaperView, wallpaper_matches, selection, truth_possible, truth_at_moment};
use crate::rules::{CalendarDay, ClockTime, ConditionView, Date, TimeRange, TimeView, Weekday};
use crate::client::{flag_letter, flag_named, is_command_text};
use crate::options::{Request, request_for};
use crate::schedule::{Info, Schedule, Span, State};
use std::time::Instant;
use crate::loader::{HeapView, reloaded};
use crate::rules::RuleView;
use crate::tables::{
    Table, TagEvent, WallEvent, is_first_index, first_index, is_first_wallpaper, wallpaper_slot,
    tag_fold, rule_events, tag_events, min_level, tag_table, wall_fold, wallpaper_events,
    wall_events, active_rules, rules_changed, weighing, lemma_first_index_found,
    lemma_wallpaper_slot_found, lemma_tag_fold_wf, lemma_wall_fold_wf,
};

verus! {

/// A name that occurs among the keys has a first occurrence.
proof fn lemma_first_index_exists(keys: Seq<Seq<char>>, name: Seq<char>)
    requires
        keys.contains(name),
    ensures
        first_index(keys, name) >= 0,
        is_first_index(keys, name, first_index(keys, name)),
    decreases keys.len(),
{
    if keys.drop_last().contains(name) {
        lemma_first_index_exists(keys.drop_last(), name);
        let i = first_index(keys.drop_last(), name);
        assert(keys.drop_last()[i] == keys[i]);
        assert forall|j: int| 0 <= j < i implies keys[j] != name by {
            assert(keys.drop_last()[j] == keys[j]);
        }
        assert(is_first_index(keys, name, i));
        lemma_first_index_found(keys, name, i);
    } else {
        let i = keys.len() - 1;
        assert forall|j: int| 0 <= j < i implies keys[j] != name by {
            assert(keys.drop_last()[j] == keys[j]);
        }
        assert(keys[i] == name);
        assert(is_first_index(keys, name, i));
        lemma_first_index_found(keys, name, i);
    }
}

/// A wallpaper that some key matches has a first matching key.
proof fn lemma_wallpaper_slot_exists(keys: Seq<WallpaperView>, w: WallpaperView, k: int)
    requires
        0 <= k < keys.len(),
        wallpaper_matches(keys[k], w),
    ensures
        wallpaper_slot(keys, w) >= 0,
    decreases keys.len(),
{
    let d = keys.drop_last();
    if exists|j: int| 0 <= j < d.len() && wallpaper_matches(d[j], w) {
        let j = choose|j: int| 0 <= j < d.len() && wallpaper_matches(d[j], w);
        lemma_wallpaper_slot_exists(d, w, j);
        let i = wallpaper_slot(d, w);
        assert(is_first_wallpaper(d, w, i));
        assert(d[i] == keys[i]);
        assert forall|q: int| 0 <= q < i implies !wallpaper_matches(keys[q], w) by {
            assert(d[q] == keys[q]);
        }
        assert(is_first_wallpaper(keys, w, i));
        lemma_wallpaper_slot_found(keys, w, i);
    } else {
        let i = keys.len() - 1;
        assert forall|j: int| 0 <= j < i implies !wallpaper_matches(keys[j], w) by {
            assert(d[j] == keys[j]);
        }
        assert(k == i);
        assert(is_first_wallpaper(keys, w, i));
        lemma_wallpaper_slot_found(keys, w, i);
    }
}

proof fn lemma_tag_fold_keys(events: Seq<TagEvent>)
    ensures
        forall|i: int, j: int|
            0 <= i < j < tag_fold(events).keys.len() ==> tag_fold(events).keys[i] != tag_fold(
                events,
            ).keys[j],
        forall|k: int| 0 <= k < events.len() ==> tag_fold(events).keys.contains(#[trigger] events[k].0),
    decreases events.len(),
{
    if events.len() > 0 {
        let prev = events.drop_last();
        lemma_tag_fold_keys(prev);
        let t = tag_fold(prev);
        let e = events.last();
        let i = first_index(t.keys, e.0);
        let keys = tag_fold(events).keys;
        if i >= 0 {
            assert(is_first_index(t.keys, e.0, i));
            assert(keys == t.keys);
        } else {
            if t.keys.contains(e.0) {
                lemma_first_index_exists(t.keys, e.0);
            }
            assert(keys == t.keys.push(e.0));
            assert forall|a: int, b: int| 0 <= a < b < keys.len() implies keys[a] != keys[b] by {
                if b == keys.len() - 1 {
                    assert(keys[a] == t.keys[a]);
                    assert(t.keys[a] != e.0);
                }
            }
        }
        assert forall|k: int| 0 <= k < events.len() implies keys.contains(#[trigger] events[k].0) by {
            if k < events.len() - 1 {
                assert(prev[k] == events[k]);
                let m = choose|m: int| 0 <= m < t.keys.len() && t.keys[m] == prev[k].0;
                assert(keys[m] == t.keys[m]);
            } else {
                if i >= 0 {
                    assert(keys[i] == e.0);
                } else {
                    assert(keys[keys.len() - 1] == e.0);
                }
            }
        }
    }
}

proof fn lemma_tag_events_cover(rules: Seq<RuleView>, min: u8, r: int, t: int)
    requires
        0 <= r < rules.len(),
        rules[r].level >= min,
        0 <= t < rules[r].tags.len(),
    ensures
        exists|k: int|
            0 <= k < tag_events(rules, min).len() && #[trigger] tag_events(rules, min)[k].0
                == rules[r].tags[t],
    decreases rules.len(),
{
    let prev = rules.drop_last();
    if r < rules.len() - 1 {
        assert(prev[r] == rules[r]);
        lemma_tag_events_cover(prev, min, r, t);
        let k = choose|k: int|
            0 <= k < tag_events(prev, min).len() && #[trigger] tag_events(prev, min)[k].0
                == prev[r].tags[t];
        if rules.last().level >= min {
            assert(tag_events(rules, min) == tag_events(prev, min) + rule_events(rules.last()));
            assert(tag_events(rules, min)[k] == tag_events(prev, min)[k]);
        } else {
            assert(tag_events(rules, min) == tag_events(prev, min));
        }
        assert(tag_events(rules, min)[k].0 == rules[r].tags[t]);
    } else {
        let base = tag_events(prev, min);
        let k = base.len() + t;
        assert(rules.last() == rules[r]);
        assert(tag_events(rules, min) == base + rule_events(rules.last()));
        assert(tag_events(rules, min)[k] == rule_events(rules.last())[t]);
        assert(tag_events(rules, min)[k].0 == rules[r].tags[t]);
    }
}

/// Each tag is weighed once: the tag table holds no tag twice.
pub proof fn tag_table_has_no_duplicates(rules: Seq<RuleView>)
    ensures
        forall|i: int, j: int|
            0 <= i < j < tag_table(rules).keys.len() ==> tag_table(rules).keys[i] != tag_table(
                rules,
            ).keys[j],
{
    lemma_tag_fold_keys(tag_events(rules, min_level(rules)));
}

/// Every tag of a rule at or above the highest level among the opaque
/// (not transparent) rules is active.
pub proof fn rules_at_top_level_are_active(rules: Seq<RuleView>, r: int, t: int)
    requires
        0 <= r < rules.len(),
        rules[r].level >= min_level(rules),
        0 <= t < rules[r].tags.len(),
    ensures
        tag_table(rules).keys.contains(rules[r].tags[t]),
{
    let events = tag_events(rules, min_level(rules));
    lemma_tag_events_cover(rules, min_level(rules), r, t);
    lemma_tag_fold_keys(events);
    let k = choose|k: int| 0 <= k < events.len() && #[trigger] events[k].0 == rules[r].tags[t];
    assert(tag_fold(events).keys.contains(events[k].0));
}

/// An opaque rule disables the rules below its level: adding a rule whose
/// level is below the highest level among the opaque rules changes no tag.
pub proof fn rules_below_an_opaque_rule_change_nothing(rules: Seq<RuleView>, r: RuleView)
    requires
        r.level < min_level(rules),
    ensures
        tag_table(rules.push(r)) == tag_table(rules),
{
    assert(rules.push(r).drop_last() =~= rules);
    assert(min_level(rules.push(r)) == min_level(rules));
    assert(tag_events(rules.push(r), min_level(rules)) == tag_events(rules, min_level(rules)));
}

/// A transparent rule never disables other rules: it leaves the level below
/// which rules are ignored as it is.
pub proof fn transparent_rules_disable_nothing(rules: Seq<RuleView>, r: RuleView)
    requires
        r.transparent,
    ensures
        min_level(rules.push(r)) == min_level(rules),
{
    assert(rules.push(r).drop_last() =~= rules);
}

proof fn lemma_wall_events_origin(ws: Seq<WallpaperView>)
    ensures
        forall|k: int|
            0 <= k < wall_events(ws).len() ==> ws.contains(#[trigger] wall_events(ws)[k].0)
                && wall_events(ws)[k].0.tags.contains(wall_events(ws)[k].1),
    decreases ws.len(),
{
    if ws.len() > 0 {
        let prev = ws.drop_last();
        lemma_wall_events_origin(prev);
        let base = wall_events(prev);
        let all = wall_events(ws);
        assert(all == base + wallpaper_events(ws.last()));
        assert forall|k: int| 0 <= k < all.len() implies ws.contains(#[trigger] all[k].0)
            && all[k].0.tags.contains(all[k].1) by {
            if k < base.len() {
                assert(all[k] == base[k]);
                let m = choose|m: int| 0 <= m < prev.len() && prev[m] == base[k].0;
                assert(ws[m] == prev[m]);
            } else {
                let t = k - base.len();
                assert(all[k] == wallpaper_events(ws.last())[t]);
                assert(ws[ws.len() - 1] == ws.last());
                assert(ws.last().tags[t] == all[k].1);
            }
        }
    }
}

/// The key comes from an event whose tag is active.
pub open spec fn has_origin(tags: Table<Seq<char>>, events: Seq<WallEvent>, key: WallpaperView) -> bool {
    exists|k: int| 0 <= k < events.len() && events[k].0 == key && tags.keys.contains(events[k].1)
}

/// Some key is the wallpaper or the same wallpaper.
pub open spec fn represented(keys: Seq<WallpaperView>, w: WallpaperView) -> bool {
    exists|i: int| 0 <= i < keys.len() && (keys[i] == w || wallpaper_matches(keys[i], w))
}

/// The wallpaper carries one of the active tags.
pub open spec fn carries_active_tag(active: Seq<Seq<char>>, w: WallpaperView) -> bool {
    exists|t: int| 0 <= t < w.tags.len() && active.contains(w.tags[t])
}

/// What the wallpaper fold keeps true of its keys.
pub open spec fn wall_keys_sound(
    tags: Table<Seq<char>>,
    events: Seq<WallEvent>,
    m: Table<WallpaperView>,
) -> bool {
    &&& forall|i: int, j: int|
        #![trigger m.keys[i], m.keys[j]]
        0 <= i < j < m.keys.len() ==> !wallpaper_matches(m.keys[i], m.keys[j])
    &&& forall|i: int| 0 <= i < m.keys.len() ==> #[trigger] has_origin(tags, events, m.keys[i])
}

proof fn lemma_wall_fold_keys(tags: Table<Seq<char>>, events: Seq<WallEvent>)
    requires
        tags.wf(),
    ensures
        wall_keys_sound(tags, events, wall_fold(tags, events)),
        forall|k: int|
            0 <= k < events.len() && tags.keys.contains(events[k].1) ==> #[trigger] represented(
                wall_fold(tags, events).keys,
                events[k].0,
            ),
    decreases events.len(),
{
    if events.len() > 0 {
        let prev = events.drop_last();
        lemma_wall_fold_keys(tags, prev);
        let m0 = wall_fold(tags, prev);
        let e = events.last();
        let m = wall_fold(tags, events);
        let k = first_index(tags.keys, e.1);
        let mut pushed = false;
        if k >= 0 {
            assert(is_first_index(tags.keys, e.1, k));
            let i = wallpaper_slot(m0.keys, e.0);
            if i >= 0 {
                assert(m.keys == m0.keys);
            } else {
                pushed = true;
                assert(m.keys == m0.keys.push(e.0));
                assert forall|a: int| 0 <= a < m0.keys.len() implies !wallpaper_matches(
                    m0.keys[a],
                    e.0,
                ) by {
                    if wallpaper_matches(m0.keys[a], e.0) {
                        lemma_wallpaper_slot_exists(m0.keys, e.0, a);
                    }
                }
            }
        } else {
            assert(m == m0);
        }
        assert forall|a: int, b: int|
            #![trigger m.keys[a], m.keys[b]]
            0 <= a < b < m.keys.len() implies !wallpaper_matches(m.keys[a], m.keys[b]) by {
            if pushed && b == m.keys.len() - 1 {
                assert(m.keys[a] == m0.keys[a]);
            } else {
                assert(m.keys[a] == m0.keys[a]);
                assert(m.keys[b] == m0.keys[b]);
            }
        }
        assert forall|a: int| 0 <= a < m.keys.len() implies #[trigger] has_origin(
            tags,
            events,
            m.keys[a],
        ) by {
            if pushed && a == m.keys.len() - 1 {
                assert(events[events.len() - 1] == e);
                assert(tags.keys[k] == e.1);
            } else {
                assert(m.keys[a] == m0.keys[a]);
                assert(has_origin(tags, prev, m0.keys[a]));
                let q = choose|q: int|
                    0 <= q < prev.len() && prev[q].0 == m0.keys[a] && tags.keys.contains(prev[q].1);
                assert(events[q] == prev[q]);
            }
        }
        assert forall|q: int|
            0 <= q < events.len() && tags.keys.contains(events[q].1) implies #[trigger] represented(
            m.keys,
            events[q].0,
        ) by {
            if q < events.len() - 1 {
                assert(events[q] == prev[q]);
                assert(represented(m0.keys, prev[q].0));
                let i = choose|i: int|
                    0 <= i < m0.keys.len() && (m0.keys[i] == prev[q].0 || wallpaper_matches(
                        m0.keys[i],
                        prev[q].0,
                    ));
                assert(m.keys[i] == m0.keys[i]);
            } else {
                assert(events[q] == e);
                lemma_first_index_exists(tags.keys, e.1);
                let i = wallpaper_slot(m0.keys, e.0);
                if i >= 0 {
                    assert(is_first_wallpaper(m0.keys, e.0, i));
                    assert(m.keys[i] == m0.keys[i]);
                } else {
                    assert(m.keys[m.keys.len() - 1] == e.0);
                }
            }
        }
    }
}

/// The selected wallpapers are wallpapers of the database, no two of them
/// the same wallpaper, and each carries an active tag; and every wallpaper of
/// the database that carries an active tag is among them.
pub proof fn selection_is_sound_and_complete(rules: Seq<RuleView>, walls: Seq<WallpaperView>)
    ensures
        forall|i: int, j: int|
            #![trigger weighing(rules, walls).keys[i], weighing(rules, walls).keys[j]]
            0 <= i < j < weighing(rules, walls).keys.len() ==> !wallpaper_matches(
                weighing(rules, walls).keys[i],
                weighing(rules, walls).keys[j],
            ),
        forall|i: int|
            0 <= i < weighing(rules, walls).keys.len() ==> walls.contains(
                #[trigger] weighing(rules, walls).keys[i],
            ),
        forall|i: int|
            0 <= i < weighing(rules, walls).keys.len() ==> #[trigger] carries_active_tag(
                tag_table(rules).keys,
                weighing(rules, walls).keys[i],
            ),
        forall|w: int, t: int|
            0 <= w < walls.len() && 0 <= t < walls[w].tags.len() && tag_table(
                rules,
            ).keys.contains(#[trigger] walls[w].tags[t]) ==> represented(
                weighing(rules, walls).keys,
                walls[w],
            ),
{
    let tags = tag_table(rules);
    let events = wall_events(walls);
    let m = weighing(rules, walls);
    lemma_tag_fold_wf(tag_events(rules, min_level(rules)));
    lemma_wall_fold_keys(tags, events);
    lemma_wall_events_origin(walls);
    assert forall|i: int| 0 <= i < m.keys.len() implies walls.contains(#[trigger] m.keys[i])
        && carries_active_tag(tags.keys, m.keys[i]) by {
        assert(has_origin(tags, events, m.keys[i]));
        let k = choose|k: int|
            0 <= k < events.len() && events[k].0 == m.keys[i] && tags.keys.contains(events[k].1);
        assert(walls.contains(events[k].0));
        let t = choose|t: int| 0 <= t < events[k].0.tags.len() && events[k].0.tags[t] == events[k].1;
        assert(tags.keys.contains(m.keys[i].tags[t]));
        assert(carries_active_tag(tags.keys, m.keys[i]));
    }
    assert forall|w: int, t: int|
        0 <= w < walls.len() && 0 <= t < walls[w].tags.len() && tags.keys.contains(
            #[trigger] walls[w].tags[t],
        ) implies represented(m.keys, walls[w]) by {
        lemma_wall_events_contain(walls, w, t);
        let k = choose|k: int|
            0 <= k < events.len() && #[trigger] events[k] == (walls[w], walls[w].tags[t]);
        assert(events[k].0 == walls[w]);
        assert(tags.keys.contains(events[k].1));
        assert(represented(m.keys, events[k].0));
    }
}

proof fn lemma_wall_events_contain(ws: Seq<WallpaperView>, w: int, t: int)
    requires
        0 <= w < ws.len(),
        0 <= t < ws[w].tags.len(),
    ensures
        exists|k: int|
            0 <= k < wall_events(ws).len() && #[trigger] wall_events(ws)[k] == (ws[w], ws[w].tags[t]),
    decreases ws.len(),
{
    let prev = ws.drop_last();
    let base = wall_events(prev);
    assert(wall_events(ws) == base + wallpaper_events(ws.last()));
    if w < ws.len() - 1 {
        assert(prev[w] == ws[w]);
        lemma_wall_events_contain(prev, w, t);
        let k = choose|k: int|
            0 <= k < base.len() && #[trigger] base[k] == (prev[w], prev[w].tags[t]);
        assert(wall_events(ws)[k] == base[k]);
    } else {
        let k = base.len() + t;
        assert(wall_events(ws)[k] == wallpaper_events(ws.last())[t]);
    }
}

/// A list of rules never differs from itself.
proof fn lemma_rules_unchanged(rules: Seq<RuleView>)
    ensures
        !rules_changed(rules, rules),
{
    assert forall|i: int| 0 <= i < rules.len() implies rules.contains(#[trigger] rules[i]) by {}
}

/// Reloading twice with the same truth values reloads once: the second
/// reload finds the active rules unchanged and leaves the heap as it is.
pub proof fn reload_is_idempotent(h: HeapView, truth: Seq<bool>)
    ensures
        reloaded(reloaded(h, truth), truth) == reloaded(h, truth),
{
    let h1 = reloaded(h, truth);
    let active = active_rules(h.database_rules, truth);
    if h1 != h {
        assert(h1.rules == active);
        lemma_rules_unchanged(active);
    } else {
    }
}

/// How often `t` occurs among the tags.
pub open spec fn occurrences(tags: Seq<Seq<char>>, t: Seq<char>) -> int
    decreases tags.len(),
{
    if tags.len() == 0 {
        0
    } else {
        occurrences(tags.drop_last(), t) + if tags.last() == t {
            1int
        } else {
            0int
        }
    }
}

/// The weight the rules give `t`: each rule's weight once for each time the
/// rule lists `t`.
pub open spec fn weight_of_tag(rules: Seq<RuleView>, t: Seq<char>) -> int
    decreases rules.len(),
{
    if rules.len() == 0 {
        0
    } else {
        weight_of_tag(rules.drop_last(), t) + rules.last().weight * occurrences(rules.last().tags, t)
    }
}

/// The weight the events give `t`.
pub open spec fn event_weight(events: Seq<TagEvent>, t: Seq<char>) -> int
    decreases events.len(),
{
    if events.len() == 0 {
        0
    } else {
        event_weight(events.drop_last(), t) + if events.last().0 == t {
            events.last().1 as int
        } else {
            0int
        }
    }
}

proof fn lemma_event_weight_concat(a: Seq<TagEvent>, b: Seq<TagEvent>, t: Seq<char>)
    ensures
        event_weight(a + b, t) == event_weight(a, t) + event_weight(b, t),
    decreases b.len(),
{
    if b.len() == 0 {
        assert(a + b =~= a);
    } else {
        assert((a + b).drop_last() =~= a + b.drop_last());
        assert((a + b).last() == b.last());
        lemma_event_weight_concat(a, b.drop_last(), t);
    }
}

proof fn lemma_rule_event_weight(r: RuleView, tags: Seq<Seq<char>>, t: Seq<char>)
    ensures
        event_weight(tags.map_values(|x: Seq<char>| (x, r.weight, r.level)), t) == r.weight
            * occurrences(tags, t),
    decreases tags.len(),
{
    let evs = tags.map_values(|x: Seq<char>| (x, r.weight, r.level));
    if tags.len() > 0 {
        lemma_rule_event_weight(r, tags.drop_last(), t);
        assert(evs.drop_last() =~= tags.drop_last().map_values(
            |x: Seq<char>| (x, r.weight, r.level),
        ));
        assert(evs.last() == (tags.last(), r.weight, r.level));
        assert(r.weight * occurrences(tags, t) == r.weight * occurrences(tags.drop_last(), t) + (
        if tags.last() == t {
            r.weight as int
        } else {
            0int
        })) by (nonlinear_arith)
            requires
                occurrences(tags, t) == occurrences(tags.drop_last(), t) + if tags.last() == t {
                    1int
                } else {
                    0int
                },
        ;
    }
}

proof fn lemma_events_weight_of_tag(rules: Seq<RuleView>, min: u8, t: Seq<char>)
    requires
        forall|i: int| 0 <= i < rules.len() ==> #[trigger] rules[i].level >= min,
    ensures
        event_weight(tag_events(rules, min), t) == weight_of_tag(rules, t),
    decreases rules.len(),
{
    if rules.len() > 0 {
        let prev = rules.drop_last();
        assert forall|i: int| 0 <= i < prev.len() implies #[trigger] prev[i].level >= min by {
            assert(prev[i] == rules[i]);
        }
        lemma_events_weight_of_tag(prev, min, t);
        assert(rules[rules.len() - 1].level >= min);
        lemma_event_weight_concat(tag_events(prev, min), rule_events(rules.last()), t);
        lemma_rule_event_weight(rules.last(), rules.last().tags, t);
    }
}

proof fn lemma_tag_fold_sums(events: Seq<TagEvent>, level: u8)
    requires
        forall|k: int| 0 <= k < events.len() ==> #[trigger] events[k].2 == level,
    ensures
        forall|i: int|
            0 <= i < tag_fold(events).keys.len() ==> tag_fold(events).weights[i] == event_weight(
                events,
                #[trigger] tag_fold(events).keys[i],
            ) && tag_fold(events).levels[i] == level,
        forall|t: Seq<char>| !tag_fold(events).keys.contains(t) ==> event_weight(events, t) == 0,
    decreases events.len(),
{
    lemma_tag_fold_wf(events);
    if events.len() > 0 {
        let prev = events.drop_last();
        assert forall|k: int| 0 <= k < prev.len() implies #[trigger] prev[k].2 == level by {
            assert(prev[k] == events[k]);
        }
        lemma_tag_fold_sums(prev, level);
        lemma_tag_fold_keys(prev);
        lemma_tag_fold_wf(prev);
        let t0 = tag_fold(prev);
        let e = events.last();
        assert(e == events[events.len() - 1]);
        let t1 = tag_fold(events);
        let i = first_index(t0.keys, e.0);
        if i >= 0 {
            assert(is_first_index(t0.keys, e.0, i));
            assert(t0.levels[i] == level);
            assert(t1 == t0.add_at(i, e.1 as int));
            assert forall|j: int| 0 <= j < t1.keys.len() implies t1.weights[j] == event_weight(
                events,
                #[trigger] t1.keys[j],
            ) && t1.levels[j] == level by {
                if j != i {
                    assert(t0.keys[j] != t0.keys[i]);
                }
            }
        } else {
            if t0.keys.contains(e.0) {
                lemma_first_index_exists(t0.keys, e.0);
            }
            assert(t1 == t0.append(e.0, e.1 as int, e.2));
            assert(!t0.keys.contains(e.0));
            assert(event_weight(prev, e.0) == 0);
            assert forall|j: int| 0 <= j < t1.keys.len() implies t1.weights[j] == event_weight(
                events,
                #[trigger] t1.keys[j],
            ) && t1.levels[j] == level by {
                if j < t0.keys.len() {
                    assert(t1.keys[j] == t0.keys[j]);
                    assert(t0.keys[j] != e.0);
                    assert(event_weight(events, t0.keys[j]) == event_weight(prev, t0.keys[j]));
                } else {
                    assert(t1.keys[j] == e.0);
                    assert(event_weight(events, e.0) == event_weight(prev, e.0) + e.1);
                }
            }
        }
        if i >= 0 {
            assert(t1.keys[i] == e.0);
        } else {
            assert(t1.keys[t1.keys.len() - 1] == e.0);
        }
        assert(t1.keys.contains(e.0));
        assert forall|t: Seq<char>| !t1.keys.contains(t) implies event_weight(events, t) == 0 by {
            if t0.keys.contains(t) {
                let m = choose|m: int| 0 <= m < t0.keys.len() && t0.keys[m] == t;
                assert(t1.keys[m] == t0.keys[m]);
            }
            assert(t != e.0);
            assert(event_weight(prev, t) == 0);
            assert(event_weight(events, t) == event_weight(prev, t));
        }
    }
}

/// Within one level weights add up: where all rules share a level, each
/// active tag weighs the sum of the weights of the rules that list it, a
/// rule counted once for each time it lists the tag.
pub proof fn weights_add_up_within_a_level(rules: Seq<RuleView>, level: u8)
    requires
        forall|i: int| 0 <= i < rules.len() ==> #[trigger] rules[i].level == level,
    ensures
        forall|i: int|
            0 <= i < tag_table(rules).keys.len() ==> tag_table(rules).weights[i] == weight_of_tag(
                rules,
                #[trigger] tag_table(rules).keys[i],
            ) && tag_table(rules).levels[i] == level,
{
    let min = min_level(rules);
    lemma_min_level_bound(rules, level);
    assert forall|i: int| 0 <= i < rules.len() implies #[trigger] rules[i].level >= min by {}
    let events = tag_events(rules, min);
    lemma_tag_events_levels(rules, min);
    lemma_tag_fold_sums(events, level);
    assert forall|i: int| 0 <= i < tag_table(rules).keys.len() implies tag_table(rules).weights[i]
        == weight_of_tag(rules, #[trigger] tag_table(rules).keys[i]) && tag_table(rules).levels[i]
        == level by {
        lemma_events_weight_of_tag(rules, min, tag_table(rules).keys[i]);
    }
}

proof fn lemma_min_level_bound(rules: Seq<RuleView>, level: u8)
    requires
        forall|i: int| 0 <= i < rules.len() ==> #[trigger] rules[i].level == level,
    ensures
        min_level(rules) <= level,
    decreases rules.len(),
{
    if rules.len() > 0 {
        let prev = rules.drop_last();
        assert forall|i: int| 0 <= i < prev.len() implies #[trigger] prev[i].level == level by {
            assert(prev[i] == rules[i]);
        }
        lemma_min_level_bound(prev, level);
        assert(rules[rules.len() - 1].level == level);
    }
}

proof fn lemma_tag_events_levels(rules: Seq<RuleView>, min: u8)
    ensures
        forall|k: int|
            0 <= k < tag_events(rules, min).len() ==> exists|r: int|
                0 <= r < rules.len() && #[trigger] tag_events(rules, min)[k].2 == rules[r].level,
    decreases rules.len(),
{
    if rules.len() > 0 {
        let prev = rules.drop_last();
        lemma_tag_events_levels(prev, min);
        let base = tag_events(prev, min);
        let all = tag_events(rules, min);
        assert forall|k: int| 0 <= k < all.len() implies exists|r: int|
            0 <= r < rules.len() && #[trigger] all[k].2 == rules[r].level by {
            if k < base.len() {
                assert(all[k] == base[k]);
                let r = choose|r: int| 0 <= r < prev.len() && #[trigger] base[k].2 == prev[r].level;
                assert(rules[r] == prev[r]);
            } else {
                assert(all == base + rule_events(rules.last()));
                assert(all[k] == rule_events(rules.last())[k - base.len()]);
                assert(rules[rules.len() - 1] == rules.last());
            }
        }
    }
}

/// The weight of `t` in the tag table, or 0 where the tag is not active.
pub open spec fn active_weight(tags: Table<Seq<char>>, t: Seq<char>) -> int {
    if first_index(tags.keys, t) >= 0 {
        tags.weights[first_index(tags.keys, t)]
    } else {
        0
    }
}

/// The sum of the active weights of the tags.
pub open spec fn tags_weight(tags: Table<Seq<char>>, ts: Seq<Seq<char>>) -> int
    decreases ts.len(),
{
    if ts.len() == 0 {
        0
    } else {
        tags_weight(tags, ts.drop_last()) + active_weight(tags, ts.last())
    }
}

/// The sum of the active weights of the events of the wallpaper `w`.
pub open spec fn wallpaper_event_weight(
    tags: Table<Seq<char>>,
    events: Seq<WallEvent>,
    w: WallpaperView,
) -> int
    decreases events.len(),
{
    if events.len() == 0 {
        0
    } else {
        wallpaper_event_weight(tags, events.drop_last(), w) + if events.last().0 == w {
            active_weight(tags, events.last().1)
        } else {
            0int
        }
    }
}

/// No two wallpapers of the list are the same wallpaper.
pub open spec fn walls_distinct(walls: Seq<WallpaperView>) -> bool {
    forall|i: int, j: int|
        #![trigger walls[i], walls[j]]
        0 <= i < walls.len() && 0 <= j < walls.len() && i != j ==> !wallpaper_matches(
            walls[i],
            walls[j],
        )
}

proof fn lemma_wall_fold_sums(
    tags: Table<Seq<char>>,
    walls: Seq<WallpaperView>,
    events: Seq<WallEvent>,
    level: u8,
)
    requires
        tags.wf(),
        forall|i: int| 0 <= i < tags.levels.len() ==> #[trigger] tags.levels[i] == level,
        walls_distinct(walls),
        forall|k: int| 0 <= k < events.len() ==> walls.contains(#[trigger] events[k].0),
    ensures
        forall|i: int|
            0 <= i < wall_fold(tags, events).keys.len() ==> walls.contains(
                #[trigger] wall_fold(tags, events).keys[i],
            ) && wall_fold(tags, events).weights[i] == wallpaper_event_weight(
                tags,
                events,
                wall_fold(tags, events).keys[i],
            ) && wall_fold(tags, events).levels[i] == level,
        forall|w: WallpaperView|
            walls.contains(w) && !wall_fold(tags, events).keys.contains(w)
                ==> #[trigger] wallpaper_event_weight(tags, events, w) == 0,
    decreases events.len(),
{
    lemma_wall_fold_wf(tags, events);
    if events.len() > 0 {
        let prev = events.drop_last();
        assert forall|k: int| 0 <= k < prev.len() implies walls.contains(#[trigger] prev[k].0) by {
            assert(prev[k] == events[k]);
        }
        lemma_wall_fold_sums(tags, walls, prev, level);
        lemma_wall_fold_keys(tags, prev);
        lemma_wall_fold_wf(tags, prev);
        let m0 = wall_fold(tags, prev);
        let m1 = wall_fold(tags, events);
        let e = events.last();
        assert(e == events[events.len() - 1]);
        assert(walls.contains(e.0));
        let k = first_index(tags.keys, e.1);
        if k < 0 {
            assert(m1 == m0);
            assert(active_weight(tags, e.1) == 0);
            assert forall|i: int| 0 <= i < m1.keys.len() implies walls.contains(#[trigger] m1.keys[i])
                && m1.weights[i] == wallpaper_event_weight(tags, events, m1.keys[i]) && m1.levels[i]
                == level by {
                assert(wallpaper_event_weight(tags, events, m1.keys[i]) == wallpaper_event_weight(
                    tags,
                    prev,
                    m1.keys[i],
                ));
            }
            assert forall|w: WallpaperView|
                walls.contains(w) && !m1.keys.contains(w) implies #[trigger] wallpaper_event_weight(
                tags,
                events,
                w,
            ) == 0 by {
                assert(wallpaper_event_weight(tags, events, w) == wallpaper_event_weight(tags, prev, w));
            }
        } else {
            assert(is_first_index(tags.keys, e.1, k));
            assert(active_weight(tags, e.1) == tags.weights[k]);
            assert(tags.levels[k] == level);
            let i = wallpaper_slot(m0.keys, e.0);
            let a = choose|a: int| 0 <= a < walls.len() && walls[a] == e.0;
            if i >= 0 {
                assert(is_first_wallpaper(m0.keys, e.0, i));
                let b = choose|b: int| 0 <= b < walls.len() && walls[b] == m0.keys[i];
                assert(walls.contains(m0.keys[i]));
                if a != b {
                    assert(!wallpaper_matches(walls[b], walls[a]));
                }
                assert(m0.keys[i] == e.0);
                assert(m0.levels[i] == level);
                assert(m1 == m0.add_at(i, tags.weights[k]));
                assert forall|j: int| 0 <= j < m1.keys.len() implies walls.contains(
                    #[trigger] m1.keys[j],
                ) && m1.weights[j] == wallpaper_event_weight(tags, events, m1.keys[j])
                    && m1.levels[j] == level by {
                    assert(walls.contains(m0.keys[j]));
                    if j != i {
                        if m0.keys[j] == e.0 {
                            if j < i {
                                assert(!wallpaper_matches(m0.keys[j], m0.keys[i]));
                            } else {
                                assert(!wallpaper_matches(m0.keys[i], m0.keys[j]));
                            }
                            assert(wallpaper_matches(walls[a], walls[a]));
                        }
                        assert(wallpaper_event_weight(tags, events, m0.keys[j])
                            == wallpaper_event_weight(tags, prev, m0.keys[j]));
                    }
                }
                assert forall|w: WallpaperView|
                    walls.contains(w) && !m1.keys.contains(w) implies #[trigger] wallpaper_event_weight(
                    tags,
                    events,
                    w,
                ) == 0 by {
                    assert(m1.keys[i] == e.0);
                    assert(w != e.0);
                    assert(wallpaper_event_weight(tags, events, w) == wallpaper_event_weight(
                        tags,
                        prev,
                        w,
                    ));
                }
            } else {
                if m0.keys.contains(e.0) {
                    let q = choose|q: int| 0 <= q < m0.keys.len() && m0.keys[q] == e.0;
                    assert(wallpaper_matches(walls[a], walls[a]));
                    assert(wallpaper_matches(m0.keys[q], e.0));
                    lemma_wallpaper_slot_exists(m0.keys, e.0, q);
                }
                assert(!m0.keys.contains(e.0));
                assert(wallpaper_event_weight(tags, prev, e.0) == 0);
                assert(m1 == m0.append(e.0, tags.weights[k], tags.levels[k]));
                assert forall|j: int| 0 <= j < m1.keys.len() implies walls.contains(
                    #[trigger] m1.keys[j],
                ) && m1.weights[j] == wallpaper_event_weight(tags, events, m1.keys[j])
                    && m1.levels[j] == level by {
                    if j < m0.keys.len() {
                        assert(m1.keys[j] == m0.keys[j]);
                        assert(walls.contains(m0.keys[j]));
                        assert(m0.keys[j] != e.0);
                        assert(wallpaper_event_weight(tags, events, m0.keys[j])
                            == wallpaper_event_weight(tags, prev, m0.keys[j]));
                    } else {
                        assert(m1.keys[j] == e.0);
                    }
                }
                assert forall|w: WallpaperView|
                    walls.contains(w) && !m1.keys.contains(w) implies #[trigger] wallpaper_event_weight(
                    tags,
                    events,
                    w,
                ) == 0 by {
                    assert(m1.keys[m1.keys.len() - 1] == e.0);
                    assert(w != e.0);
                    if m0.keys.contains(w) {
                        let q = choose|q: int| 0 <= q < m0.keys.len() && m0.keys[q] == w;
                        assert(m1.keys[q] == m0.keys[q]);
                    }
                    assert(wallpaper_event_weight(tags, events, w) == wallpaper_event_weight(
                        tags,
                        prev,
                        w,
                    ));
                }
            }
        }
    }
}

proof fn lemma_wallpaper_event_weight_concat(
    tags: Table<Seq<char>>,
    a: Seq<WallEvent>,
    b: Seq<WallEvent>,
    w: WallpaperView,
)
    ensures
        wallpaper_event_weight(tags, a + b, w) == wallpaper_event_weight(tags, a, w)
            + wallpaper_event_weight(tags, b, w),
    decreases b.len(),
{
    if b.len() == 0 {
        assert(a + b =~= a);
    } else {
        assert((a + b).drop_last() =~= a + b.drop_last());
        assert((a + b).last() == b.last());
        lemma_wallpaper_event_weight_concat(tags, a, b.drop_last(), w);
    }
}

proof fn lemma_own_events_weight(tags: Table<Seq<char>>, v: WallpaperView, ts: Seq<Seq<char>>, w: WallpaperView)
    ensures
        wallpaper_event_weight(tags, ts.map_values(|t: Seq<char>| (v, t)), w) == if v == w {
            tags_weight(tags, ts)
        } else {
            0
        },
    decreases ts.len(),
{
    if ts.len() > 0 {
        lemma_own_events_weight(tags, v, ts.drop_last(), w);
        assert(ts.map_values(|t: Seq<char>| (v, t)).drop_last() =~= ts.drop_last().map_values(
            |t: Seq<char>| (v, t),
        ));
    }
}

proof fn lemma_events_weight_of_wallpaper(tags: Table<Seq<char>>, walls: Seq<WallpaperView>, a: int)
    requires
        walls_distinct(walls),
        0 <= a < walls.len(),
    ensures
        wallpaper_event_weight(tags, wall_events(walls), walls[a]) == tags_weight(tags, walls[a].tags),
    decreases walls.len(),
{
    let prev = walls.drop_last();
    let last = walls.last();
    lemma_wallpaper_event_weight_concat(tags, wall_events(prev), wallpaper_events(last), walls[a]);
    lemma_own_events_weight(tags, last, last.tags, walls[a]);
    if a < walls.len() - 1 {
        assert(prev[a] == walls[a]);
        assert forall|i: int, j: int|
            #![trigger prev[i], prev[j]]
            0 <= i < prev.len() && 0 <= j < prev.len() && i != j implies !wallpaper_matches(
            prev[i],
            prev[j],
        ) by {
            assert(prev[i] == walls[i] && prev[j] == walls[j]);
        }
        assert forall|i: int| 0 <= i < prev.len() implies wallpaper_matches(#[trigger] prev[i], prev[i]) by {
            assert(prev[i] == walls[i]);
        }
        lemma_events_weight_of_wallpaper(tags, prev, a);
        assert(walls[walls.len() - 1] == last);
        if last == walls[a] {
            assert(wallpaper_matches(walls[a], walls[a]));
            assert(!wallpaper_matches(walls[a], walls[walls.len() - 1]));
        }
    } else {
        assert(walls[a] == last);
        lemma_wall_events_origin(prev);
        assert forall|k: int| 0 <= k < wall_events(prev).len() implies #[trigger] elsewhere(
            walls,
            a,
            wall_events(prev)[k].0,
        ) by {
            let w = wall_events(prev)[k].0;
            assert(prev.contains(w));
            let b = choose|b: int| 0 <= b < prev.len() && prev[b] == w;
            assert(walls[b] == prev[b]);
        }
        lemma_wallpaper_event_weight_none(tags, wall_events(prev), walls, a);
    }
}

/// `w` is a wallpaper of the list at a position other than `a`.
pub open spec fn elsewhere(walls: Seq<WallpaperView>, a: int, w: WallpaperView) -> bool {
    exists|b: int| 0 <= b < walls.len() && b != a && walls[b] == w
}

proof fn lemma_wallpaper_event_weight_none(
    tags: Table<Seq<char>>,
    events: Seq<WallEvent>,
    walls: Seq<WallpaperView>,
    a: int,
)
    requires
        walls_distinct(walls),
        0 <= a < walls.len(),
        forall|k: int| 0 <= k < events.len() ==> #[trigger] elsewhere(walls, a, events[k].0),
    ensures
        wallpaper_event_weight(tags, events, walls[a]) == 0,
    decreases events.len(),
{
    if events.len() > 0 {
        let prev = events.drop_last();
        assert forall|k: int| 0 <= k < prev.len() implies #[trigger] elsewhere(walls, a, prev[k].0) by {
            assert(prev[k] == events[k]);
            assert(elsewhere(walls, a, events[k].0));
        }
        lemma_wallpaper_event_weight_none(tags, prev, walls, a);
        assert(events[events.len() - 1] == events.last());
        assert(elsewhere(walls, a, events[events.len() - 1].0));
        let b = choose|b: int| 0 <= b < walls.len() && b != a && walls[b] == events.last().0;
        if events.last().0 == walls[a] {
            assert(wallpaper_matches(walls[a], walls[a]));
            assert(!wallpaper_matches(walls[b], walls[a]));
        }
    }
}

/// Within one level the weights of a wallpaper's tags add up: where every
/// active tag has the same level and the database lists each wallpaper once,
/// each selected wallpaper weighs the sum of the weights of its active tags.
pub proof fn wallpaper_weights_add_up_within_a_level(
    rules: Seq<RuleView>,
    walls: Seq<WallpaperView>,
    level: u8,
)
    requires
        forall|i: int| 0 <= i < rules.len() ==> #[trigger] rules[i].level == level,
        walls_distinct(walls),
    ensures
        forall|i: int|
            0 <= i < weighing(rules, walls).keys.len() ==> weighing(rules, walls).weights[i]
                == tags_weight(tag_table(rules), #[trigger] weighing(rules, walls).keys[i].tags),
{
    let tags = tag_table(rules);
    let events = wall_events(walls);
    lemma_tag_fold_wf(tag_events(rules, min_level(rules)));
    weights_add_up_within_a_level(rules, level);
    assert forall|i: int| 0 <= i < tags.levels.len() implies #[trigger] tags.levels[i] == level by {
        assert(tags.keys[i] == tags.keys[i]);
    }
    lemma_wall_events_origin(walls);
    lemma_wall_fold_sums(tags, walls, events, level);
    let m = weighing(rules, walls);
    assert forall|i: int| 0 <= i < m.keys.len() implies m.weights[i] == tags_weight(
        tags,
        #[trigger] m.keys[i].tags,
    ) by {
        let a = choose|a: int| 0 <= a < walls.len() && walls[a] == m.keys[i];
        lemma_events_weight_of_wallpaper(tags, walls, a);
    }
}


/// The higher of an optional level and a level.
pub open spec fn raise(top: Option<u8>, l: u8) -> Option<u8> {
    match top {
        Some(m) => if m >= l {
            Some(m)
        } else {
            Some(l)
        },
        None => Some(l),
    }
}

/// The higher of two optional levels.
pub open spec fn join(p: Option<u8>, q: Option<u8>) -> Option<u8> {
    match q {
        Some(l) => raise(p, l),
        None => p,
    }
}

/// The highest level among the events of `t`, if `t` has any.
pub open spec fn top_event_level(events: Seq<TagEvent>, t: Seq<char>) -> Option<u8>
    decreases events.len(),
{
    if events.len() == 0 {
        None
    } else if events.last().0 == t {
        raise(top_event_level(events.drop_last(), t), events.last().2)
    } else {
        top_event_level(events.drop_last(), t)
    }
}

/// The sum of the weights of the events of `t` at level `l`.
pub open spec fn event_weight_at(events: Seq<TagEvent>, t: Seq<char>, l: u8) -> int
    decreases events.len(),
{
    if events.len() == 0 {
        0
    } else {
        event_weight_at(events.drop_last(), t, l) + if events.last().0 == t && events.last().2
            == l {
            events.last().1 as int
        } else {
            0int
        }
    }
}

/// No event of `t` lies above its highest level.
proof fn lemma_event_weight_above_top(events: Seq<TagEvent>, t: Seq<char>, l: u8)
    requires
        match top_event_level(events, t) {
            Some(m) => m < l,
            None => true,
        },
    ensures
        event_weight_at(events, t, l) == 0,
    decreases events.len(),
{
    if events.len() > 0 {
        lemma_event_weight_above_top(events.drop_last(), t, l);
    }
}

proof fn lemma_tag_fold_priority(events: Seq<TagEvent>)
    ensures
        forall|i: int|
            0 <= i < tag_fold(events).keys.len() ==> top_event_level(
                events,
                #[trigger] tag_fold(events).keys[i],
            ) == Some(tag_fold(events).levels[i]) && tag_fold(events).weights[i]
                == event_weight_at(events, tag_fold(events).keys[i], tag_fold(events).levels[i]),
        forall|t: Seq<char>|
            !tag_fold(events).keys.contains(t) ==> #[trigger] top_event_level(events, t) is None,
    decreases events.len(),
{
    lemma_tag_fold_wf(events);
    if events.len() > 0 {
        let prev = events.drop_last();
        lemma_tag_fold_priority(prev);
        lemma_tag_fold_keys(prev);
        lemma_tag_fold_wf(prev);
        let t0 = tag_fold(prev);
        let e = events.last();
        let t1 = tag_fold(events);
        let i = first_index(t0.keys, e.0);
        if i >= 0 {
            assert(is_first_index(t0.keys, e.0, i));
            let lv = t0.levels[i];
            assert(top_event_level(prev, t0.keys[i]) == Some(lv));
            if lv == e.2 {
                assert(t1 == t0.add_at(i, e.1 as int));
            } else if lv < e.2 {
                assert(t1 == t0.set_at(i, e.1 as int, e.2));
                lemma_event_weight_above_top(prev, e.0, e.2);
            } else {
                assert(t1 == t0);
            }
            assert forall|j: int| 0 <= j < t1.keys.len() implies top_event_level(
                events,
                #[trigger] t1.keys[j],
            ) == Some(t1.levels[j]) && t1.weights[j] == event_weight_at(
                events,
                t1.keys[j],
                t1.levels[j],
            ) by {
                if j != i {
                    assert(t0.keys[j] != t0.keys[i]);
                }
            }
            assert forall|t: Seq<char>| !t1.keys.contains(t) implies #[trigger] top_event_level(
                events,
                t,
            ) is None by {
                assert(t1.keys[i] == e.0);
                assert(t1.keys =~= t0.keys);
                assert(t != e.0);
                assert(top_event_level(prev, t) is None);
            }
        } else {
            if t0.keys.contains(e.0) {
                lemma_first_index_exists(t0.keys, e.0);
            }
            assert(t1 == t0.append(e.0, e.1 as int, e.2));
            assert(!t0.keys.contains(e.0));
            assert(top_event_level(prev, e.0) is None);
            lemma_event_weight_above_top(prev, e.0, e.2);
            assert forall|j: int| 0 <= j < t1.keys.len() implies top_event_level(
                events,
                #[trigger] t1.keys[j],
            ) == Some(t1.levels[j]) && t1.weights[j] == event_weight_at(
                events,
                t1.keys[j],
                t1.levels[j],
            ) by {
                if j < t0.keys.len() {
                    assert(t1.keys[j] == t0.keys[j]);
                    assert(t0.keys[j] != e.0);
                } else {
                    assert(t1.keys[j] == e.0);
                }
            }
            assert forall|t: Seq<char>| !t1.keys.contains(t) implies #[trigger] top_event_level(
                events,
                t,
            ) is None by {
                assert(t1.keys[t1.keys.len() - 1] == e.0);
                if t0.keys.contains(t) {
                    let m = choose|m: int| 0 <= m < t0.keys.len() && t0.keys[m] == t;
                    assert(t1.keys[m] == t0.keys[m]);
                }
                assert(t != e.0);
                assert(top_event_level(prev, t) is None);
            }
        }
    }
}

proof fn lemma_top_event_level_concat(a: Seq<TagEvent>, b: Seq<TagEvent>, t: Seq<char>)
    ensures
        top_event_level(a + b, t) == join(top_event_level(a, t), top_event_level(b, t)),
        forall|l: u8|
            #[trigger] event_weight_at(a + b, t, l) == event_weight_at(a, t, l) + event_weight_at(
                b,
                t,
                l,
            ),
    decreases b.len(),
{
    if b.len() == 0 {
        assert(a + b =~= a);
    } else {
        assert((a + b).drop_last() =~= a + b.drop_last());
        assert((a + b).last() == b.last());
        lemma_top_event_level_concat(a, b.drop_last(), t);
        assert forall|l: u8| #[trigger] event_weight_at(a + b, t, l) == event_weight_at(a, t, l)
            + event_weight_at(b, t, l) by {
            assert(event_weight_at(a + b.drop_last(), t, l) == event_weight_at(a, t, l)
                + event_weight_at(b.drop_last(), t, l));
        }
    }
}

/// The events of the tags, each with the rule's weight and level.
spec fn listed_events(tags: Seq<Seq<char>>, r: RuleView) -> Seq<TagEvent> {
    tags.map_values(|x: Seq<char>| (x, r.weight, r.level))
}

proof fn lemma_rule_event_priority(r: RuleView, tags: Seq<Seq<char>>, t: Seq<char>)
    ensures
        top_event_level(listed_events(tags, r), t) == if tags.contains(t) {
            Some(r.level)
        } else {
            None
        },
        forall|l: u8|
            #[trigger] event_weight_at(listed_events(tags, r), t, l) == if r.level == l {
                r.weight * occurrences(tags, t)
            } else {
                0
            },
    decreases tags.len(),
{
    let evs = listed_events(tags, r);
    if tags.len() > 0 {
        let prev = tags.drop_last();
        lemma_rule_event_priority(r, prev, t);
        assert(evs.drop_last() =~= listed_events(prev, r));
        assert(evs.last() == (tags.last(), r.weight, r.level));
        assert(tags.contains(t) <==> prev.contains(t) || tags.last() == t) by {
            if tags.contains(t) {
                let k = choose|k: int| 0 <= k < tags.len() && tags[k] == t;
                if k < tags.len() - 1 {
                    assert(prev[k] == tags[k]);
                }
            }
            if prev.contains(t) {
                let k = choose|k: int| 0 <= k < prev.len() && prev[k] == t;
                assert(tags[k] == prev[k]);
            }
        }
        assert(r.weight * occurrences(tags, t) == r.weight * occurrences(prev, t) + (
        if tags.last() == t {
            r.weight as int
        } else {
            0int
        })) by (nonlinear_arith)
            requires
                occurrences(tags, t) == occurrences(prev, t) + if tags.last() == t {
                    1int
                } else {
                    0int
                },
        ;
        assert forall|l: u8| #[trigger] event_weight_at(listed_events(tags, r), t, l) == if r.level
            == l {
            r.weight * occurrences(tags, t)
        } else {
            0
        } by {
            assert(event_weight_at(listed_events(prev, r), t, l) == if r.level == l {
                r.weight * occurrences(prev, t)
            } else {
                0
            });
        }
    }
}

/// The highest level among the rules at or above `min` that list `t`, if
/// any does.
pub open spec fn top_rule_level(rules: Seq<RuleView>, min: u8, t: Seq<char>) -> Option<u8>
    decreases rules.len(),
{
    if rules.len() == 0 {
        None
    } else if rules.last().level >= min && rules.last().tags.contains(t) {
        raise(top_rule_level(rules.drop_last(), min, t), rules.last().level)
    } else {
        top_rule_level(rules.drop_last(), min, t)
    }
}

/// The weight the rules at level `l` (and at or above `min`) give `t`: each
/// such rule's weight once for each time it lists `t`.
pub open spec fn weight_of_tag_at(rules: Seq<RuleView>, min: u8, t: Seq<char>, l: u8) -> int
    decreases rules.len(),
{
    if rules.len() == 0 {
        0
    } else {
        weight_of_tag_at(rules.drop_last(), min, t, l) + if rules.last().level >= min
            && rules.last().level == l {
            rules.last().weight * occurrences(rules.last().tags, t)
        } else {
            0
        }
    }
}

proof fn lemma_events_priority_of_rules(rules: Seq<RuleView>, min: u8, t: Seq<char>)
    ensures
        top_event_level(tag_events(rules, min), t) == top_rule_level(rules, min, t),
        forall|l: u8|
            #[trigger] event_weight_at(tag_events(rules, min), t, l) == weight_of_tag_at(
                rules,
                min,
                t,
                l,
            ),
    decreases rules.len(),
{
    if rules.len() > 0 {
        let prev = rules.drop_last();
        let r = rules.last();
        lemma_events_priority_of_rules(prev, min, t);
        if r.level >= min {
            assert(rule_events(r) =~= listed_events(r.tags, r));
            lemma_top_event_level_concat(tag_events(prev, min), rule_events(r), t);
            lemma_rule_event_priority(r, r.tags, t);
            assert forall|l: u8| #[trigger] event_weight_at(tag_events(rules, min), t, l)
                == weight_of_tag_at(rules, min, t, l) by {
                assert(event_weight_at(tag_events(rules, min), t, l) == event_weight_at(
                    tag_events(prev, min),
                    t,
                    l,
                ) + event_weight_at(rule_events(r), t, l));
            }
        }
    }
}

/// The higher level decides a tag's weight, whatever the order of the rules:
/// among the rules that count (those at or above the highest level of an
/// opaque rule), each active tag holds the highest level of a rule that lists
/// it and weighs the sum of the weights of the rules at that level that list
/// it, a rule counted once for each time it lists the tag; and every tag that
/// a counted rule lists is active.
pub proof fn higher_level_decides_tag_weight(rules: Seq<RuleView>)
    ensures
        forall|i: int|
            0 <= i < tag_table(rules).keys.len() ==> top_rule_level(
                rules,
                min_level(rules),
                #[trigger] tag_table(rules).keys[i],
            ) == Some(tag_table(rules).levels[i]) && tag_table(rules).weights[i]
                == weight_of_tag_at(
                rules,
                min_level(rules),
                tag_table(rules).keys[i],
                tag_table(rules).levels[i],
            ),
        forall|t: Seq<char>|
            #[trigger] top_rule_level(rules, min_level(rules), t) is Some ==> tag_table(
                rules,
            ).keys.contains(t),
{
    let min = min_level(rules);
    let events = tag_events(rules, min);
    lemma_tag_fold_priority(events);
    let tt = tag_table(rules);
    assert forall|i: int| 0 <= i < tt.keys.len() implies top_rule_level(
        rules,
        min,
        #[trigger] tt.keys[i],
    ) == Some(tt.levels[i]) && tt.weights[i] == weight_of_tag_at(
        rules,
        min,
        tt.keys[i],
        tt.levels[i],
    ) by {
        lemma_events_priority_of_rules(rules, min, tt.keys[i]);
    }
    assert forall|t: Seq<char>| #[trigger] top_rule_level(rules, min, t) is Some implies tt.keys.contains(
        t,
    ) by {
        lemma_events_priority_of_rules(rules, min, t);
    }
}


/// The level of `t` in the tag table, if `t` is active.
pub open spec fn active_level(tags: Table<Seq<char>>, t: Seq<char>) -> Option<u8> {
    if first_index(tags.keys, t) >= 0 {
        Some(tags.levels[first_index(tags.keys, t)])
    } else {
        None
    }
}

/// The highest level among the active tags of the list, if one is active.
pub open spec fn top_tag_level(tags: Table<Seq<char>>, ts: Seq<Seq<char>>) -> Option<u8>
    decreases ts.len(),
{
    if ts.len() == 0 {
        None
    } else {
        join(top_tag_level(tags, ts.drop_last()), active_level(tags, ts.last()))
    }
}

/// The sum of the weights of the active tags of the list at level `l`.
pub open spec fn tags_weight_at(tags: Table<Seq<char>>, ts: Seq<Seq<char>>, l: u8) -> int
    decreases ts.len(),
{
    if ts.len() == 0 {
        0
    } else {
        tags_weight_at(tags, ts.drop_last(), l) + if active_level(tags, ts.last()) == Some(l) {
            active_weight(tags, ts.last())
        } else {
            0
        }
    }
}

/// The highest active level among the events of the wallpaper `w`.
pub open spec fn wall_top_level(
    tags: Table<Seq<char>>,
    events: Seq<WallEvent>,
    w: WallpaperView,
) -> Option<u8>
    decreases events.len(),
{
    if events.len() == 0 {
        None
    } else if events.last().0 == w {
        join(wall_top_level(tags, events.drop_last(), w), active_level(tags, events.last().1))
    } else {
        wall_top_level(tags, events.drop_last(), w)
    }
}

/// The sum of the active weights at level `l` of the events of `w`.
pub open spec fn wall_weight_at(
    tags: Table<Seq<char>>,
    events: Seq<WallEvent>,
    w: WallpaperView,
    l: u8,
) -> int
    decreases events.len(),
{
    if events.len() == 0 {
        0
    } else {
        wall_weight_at(tags, events.drop_last(), w, l) + if events.last().0 == w && active_level(
            tags,
            events.last().1,
        ) == Some(l) {
            active_weight(tags, events.last().1)
        } else {
            0
        }
    }
}

/// No event of `w` lies above its highest level.
proof fn lemma_wall_weight_above_top(
    tags: Table<Seq<char>>,
    events: Seq<WallEvent>,
    w: WallpaperView,
    l: u8,
)
    requires
        match wall_top_level(tags, events, w) {
            Some(m) => m < l,
            None => true,
        },
    ensures
        wall_weight_at(tags, events, w, l) == 0,
    decreases events.len(),
{
    if events.len() > 0 {
        lemma_wall_weight_above_top(tags, events.drop_last(), w, l);
    }
}

proof fn lemma_wall_fold_priority(
    tags: Table<Seq<char>>,
    walls: Seq<WallpaperView>,
    events: Seq<WallEvent>,
)
    requires
        tags.wf(),
        walls_distinct(walls),
        forall|k: int| 0 <= k < events.len() ==> walls.contains(#[trigger] events[k].0),
    ensures
        forall|i: int|
            0 <= i < wall_fold(tags, events).keys.len() ==> walls.contains(
                #[trigger] wall_fold(tags, events).keys[i],
            ) && wall_top_level(tags, events, wall_fold(tags, events).keys[i]) == Some(
                wall_fold(tags, events).levels[i],
            ) && wall_fold(tags, events).weights[i] == wall_weight_at(
                tags,
                events,
                wall_fold(tags, events).keys[i],
                wall_fold(tags, events).levels[i],
            ),
        forall|w: WallpaperView|
            walls.contains(w) && !wall_fold(tags, events).keys.contains(w)
                ==> #[trigger] wall_top_level(tags, events, w) is None,
    decreases events.len(),
{
    lemma_wall_fold_wf(tags, events);
    if events.len() > 0 {
        let prev = events.drop_last();
        assert forall|k: int| 0 <= k < prev.len() implies walls.contains(#[trigger] prev[k].0) by {
            assert(prev[k] == events[k]);
        }
        lemma_wall_fold_priority(tags, walls, prev);
        lemma_wall_fold_keys(tags, prev);
        lemma_wall_fold_wf(tags, prev);
        let m0 = wall_fold(tags, prev);
        let m1 = wall_fold(tags, events);
        let e = events.last();
        assert(e == events[events.len() - 1]);
        assert(walls.contains(e.0));
        let k = first_index(tags.keys, e.1);
        if k < 0 {
            assert(m1 == m0);
            assert(active_level(tags, e.1) is None);
            assert forall|i: int| 0 <= i < m1.keys.len() implies walls.contains(#[trigger] m1.keys[i])
                && wall_top_level(tags, events, m1.keys[i]) == Some(m1.levels[i]) && m1.weights[i]
                == wall_weight_at(tags, events, m1.keys[i], m1.levels[i]) by {
                assert(wall_top_level(tags, events, m1.keys[i]) == wall_top_level(
                    tags,
                    prev,
                    m1.keys[i],
                ));
                assert(wall_weight_at(tags, events, m1.keys[i], m1.levels[i]) == wall_weight_at(
                    tags,
                    prev,
                    m1.keys[i],
                    m1.levels[i],
                ));
            }
            assert forall|w: WallpaperView|
                walls.contains(w) && !m1.keys.contains(w) implies #[trigger] wall_top_level(
                tags,
                events,
                w,
            ) is None by {
                assert(wall_top_level(tags, events, w) == wall_top_level(tags, prev, w));
            }
        } else {
            assert(is_first_index(tags.keys, e.1, k));
            let tl = tags.levels[k];
            assert(active_level(tags, e.1) == Some(tl));
            assert(active_weight(tags, e.1) == tags.weights[k]);
            let i = wallpaper_slot(m0.keys, e.0);
            let a = choose|a: int| 0 <= a < walls.len() && walls[a] == e.0;
            if i >= 0 {
                assert(is_first_wallpaper(m0.keys, e.0, i));
                let b = choose|b: int| 0 <= b < walls.len() && walls[b] == m0.keys[i];
                assert(walls.contains(m0.keys[i]));
                if a != b {
                    assert(!wallpaper_matches(walls[b], walls[a]));
                }
                assert(m0.keys[i] == e.0);
                let lv = m0.levels[i];
                assert(wall_top_level(tags, prev, e.0) == Some(lv));
                if lv == tl {
                    assert(m1 == m0.add_at(i, tags.weights[k]));
                } else if lv < tl {
                    assert(m1 == m0.set_at(i, tags.weights[k], tl));
                    lemma_wall_weight_above_top(tags, prev, e.0, tl);
                } else {
                    assert(m1 == m0);
                }
                assert forall|j: int| 0 <= j < m1.keys.len() implies walls.contains(
                    #[trigger] m1.keys[j],
                ) && wall_top_level(tags, events, m1.keys[j]) == Some(m1.levels[j])
                    && m1.weights[j] == wall_weight_at(tags, events, m1.keys[j], m1.levels[j]) by {
                    assert(walls.contains(m0.keys[j]));
                    if j != i {
                        if m0.keys[j] == e.0 {
                            if j < i {
                                assert(!wallpaper_matches(m0.keys[j], m0.keys[i]));
                            } else {
                                assert(!wallpaper_matches(m0.keys[i], m0.keys[j]));
                            }
                        }
                        assert(wall_top_level(tags, events, m0.keys[j]) == wall_top_level(
                            tags,
                            prev,
                            m0.keys[j],
                        ));
                        assert(wall_weight_at(tags, events, m0.keys[j], m0.levels[j])
                            == wall_weight_at(tags, prev, m0.keys[j], m0.levels[j]));
                    }
                }
                assert forall|w: WallpaperView|
                    walls.contains(w) && !m1.keys.contains(w) implies #[trigger] wall_top_level(
                    tags,
                    events,
                    w,
                ) is None by {
                    assert(m1.keys[i] == e.0);
                    assert(w != e.0);
                    assert(m1.keys =~= m0.keys);
                    assert(wall_top_level(tags, events, w) == wall_top_level(tags, prev, w));
                }
            } else {
                if m0.keys.contains(e.0) {
                    let q = choose|q: int| 0 <= q < m0.keys.len() && m0.keys[q] == e.0;
                    assert(wallpaper_matches(m0.keys[q], e.0));
                    lemma_wallpaper_slot_exists(m0.keys, e.0, q);
                }
                assert(!m0.keys.contains(e.0));
                assert(wall_top_level(tags, prev, e.0) is None);
                lemma_wall_weight_above_top(tags, prev, e.0, tl);
                assert(m1 == m0.append(e.0, tags.weights[k], tags.levels[k]));
                assert forall|j: int| 0 <= j < m1.keys.len() implies walls.contains(
                    #[trigger] m1.keys[j],
                ) && wall_top_level(tags, events, m1.keys[j]) == Some(m1.levels[j])
                    && m1.weights[j] == wall_weight_at(tags, events, m1.keys[j], m1.levels[j]) by {
                    if j < m0.keys.len() {
                        assert(m1.keys[j] == m0.keys[j]);
                        assert(walls.contains(m0.keys[j]));
                        assert(m0.keys[j] != e.0);
                        assert(wall_top_level(tags, events, m0.keys[j]) == wall_top_level(
                            tags,
                            prev,
                            m0.keys[j],
                        ));
                        assert(wall_weight_at(tags, events, m0.keys[j], m0.levels[j])
                            == wall_weight_at(tags, prev, m0.keys[j], m0.levels[j]));
                    } else {
                        assert(m1.keys[j] == e.0);
                    }
                }
                assert forall|w: WallpaperView|
                    walls.contains(w) && !m1.keys.contains(w) implies #[trigger] wall_top_level(
                    tags,
                    events,
                    w,
                ) is None by {
                    assert(m1.keys[m1.keys.len() - 1] == e.0);
                    assert(w != e.0);
                    if m0.keys.contains(w) {
                        let q = choose|q: int| 0 <= q < m0.keys.len() && m0.keys[q] == w;
                        assert(m1.keys[q] == m0.keys[q]);
                    }
                    assert(wall_top_level(tags, events, w) == wall_top_level(tags, prev, w));
                }
            }
        }
    }
}

proof fn lemma_wall_top_level_concat(
    tags: Table<Seq<char>>,
    a: Seq<WallEvent>,
    b: Seq<WallEvent>,
    w: WallpaperView,
)
    ensures
        wall_top_level(tags, a + b, w) == join(
            wall_top_level(tags, a, w),
            wall_top_level(tags, b, w),
        ),
        forall|l: u8|
            #[trigger] wall_weight_at(tags, a + b, w, l) == wall_weight_at(tags, a, w, l)
                + wall_weight_at(tags, b, w, l),
    decreases b.len(),
{
    if b.len() == 0 {
        assert(a + b =~= a);
    } else {
        assert((a + b).drop_last() =~= a + b.drop_last());
        assert((a + b).last() == b.last());
        lemma_wall_top_level_concat(tags, a, b.drop_last(), w);
        assert forall|l: u8| #[trigger] wall_weight_at(tags, a + b, w, l) == wall_weight_at(
            tags,
            a,
            w,
            l,
        ) + wall_weight_at(tags, b, w, l) by {
            assert(wall_weight_at(tags, a + b.drop_last(), w, l) == wall_weight_at(tags, a, w, l)
                + wall_weight_at(tags, b.drop_last(), w, l));
        }
    }
}

/// The events of the wallpaper `v` with each of the tags.
spec fn own_events(v: WallpaperView, ts: Seq<Seq<char>>) -> Seq<WallEvent> {
    ts.map_values(|t: Seq<char>| (v, t))
}

proof fn lemma_own_events_priority(
    tags: Table<Seq<char>>,
    v: WallpaperView,
    ts: Seq<Seq<char>>,
    w: WallpaperView,
)
    ensures
        wall_top_level(tags, own_events(v, ts), w) == if v == w {
            top_tag_level(tags, ts)
        } else {
            None
        },
        forall|l: u8|
            #[trigger] wall_weight_at(tags, own_events(v, ts), w, l) == if v == w {
                tags_weight_at(tags, ts, l)
            } else {
                0
            },
    decreases ts.len(),
{
    if ts.len() > 0 {
        lemma_own_events_priority(tags, v, ts.drop_last(), w);
        assert(own_events(v, ts).drop_last() =~= own_events(v, ts.drop_last()));
        assert(own_events(v, ts).last() == (v, ts.last()));
        assert forall|l: u8| #[trigger] wall_weight_at(tags, own_events(v, ts), w, l) == if v
            == w {
            tags_weight_at(tags, ts, l)
        } else {
            0
        } by {
            assert(wall_weight_at(tags, own_events(v, ts.drop_last()), w, l) == if v == w {
                tags_weight_at(tags, ts.drop_last(), l)
            } else {
                0
            });
        }
    }
}

proof fn lemma_wall_priority_elsewhere(
    tags: Table<Seq<char>>,
    events: Seq<WallEvent>,
    walls: Seq<WallpaperView>,
    a: int,
)
    requires
        walls_distinct(walls),
        0 <= a < walls.len(),
        forall|k: int| 0 <= k < events.len() ==> #[trigger] elsewhere(walls, a, events[k].0),
    ensures
        wall_top_level(tags, events, walls[a]) is None,
        forall|l: u8| #[trigger] wall_weight_at(tags, events, walls[a], l) == 0,
    decreases events.len(),
{
    if events.len() > 0 {
        let prev = events.drop_last();
        assert forall|k: int| 0 <= k < prev.len() implies #[trigger] elsewhere(walls, a, prev[k].0) by {
            assert(prev[k] == events[k]);
            assert(elsewhere(walls, a, events[k].0));
        }
        lemma_wall_priority_elsewhere(tags, prev, walls, a);
        assert(events[events.len() - 1] == events.last());
        assert(elsewhere(walls, a, events[events.len() - 1].0));
        let b = choose|b: int| 0 <= b < walls.len() && b != a && walls[b] == events.last().0;
        if events.last().0 == walls[a] {
            assert(wallpaper_matches(walls[a], walls[a]));
            assert(!wallpaper_matches(walls[b], walls[a]));
        }
        assert forall|l: u8| #[trigger] wall_weight_at(tags, events, walls[a], l) == 0 by {
            assert(wall_weight_at(tags, prev, walls[a], l) == 0);
        }
    }
}

proof fn lemma_wallpaper_priority(tags: Table<Seq<char>>, walls: Seq<WallpaperView>, a: int)
    requires
        walls_distinct(walls),
        0 <= a < walls.len(),
    ensures
        wall_top_level(tags, wall_events(walls), walls[a]) == top_tag_level(tags, walls[a].tags),
        forall|l: u8|
            #[trigger] wall_weight_at(tags, wall_events(walls), walls[a], l) == tags_weight_at(
                tags,
                walls[a].tags,
                l,
            ),
    decreases walls.len(),
{
    let prev = walls.drop_last();
    let last = walls.last();
    assert(wallpaper_events(last) =~= own_events(last, last.tags));
    lemma_wall_top_level_concat(tags, wall_events(prev), wallpaper_events(last), walls[a]);
    lemma_own_events_priority(tags, last, last.tags, walls[a]);
    if a < walls.len() - 1 {
        assert(prev[a] == walls[a]);
        assert forall|i: int, j: int|
            #![trigger prev[i], prev[j]]
            0 <= i < prev.len() && 0 <= j < prev.len() && i != j implies !wallpaper_matches(
            prev[i],
            prev[j],
        ) by {
            assert(prev[i] == walls[i] && prev[j] == walls[j]);
        }
        lemma_wallpaper_priority(tags, prev, a);
        assert(walls[walls.len() - 1] == last);
        if last == walls[a] {
            assert(wallpaper_matches(walls[a], walls[a]));
            assert(!wallpaper_matches(walls[a], walls[walls.len() - 1]));
        }
        assert forall|l: u8| #[trigger] wall_weight_at(tags, wall_events(walls), walls[a], l)
            == tags_weight_at(tags, walls[a].tags, l) by {
            assert(wall_weight_at(tags, wall_events(prev), walls[a], l) == tags_weight_at(
                tags,
                walls[a].tags,
                l,
            ));
            assert(wall_weight_at(tags, own_events(last, last.tags), walls[a], l) == 0);
        }
    } else {
        assert(walls[a] == last);
        lemma_wall_events_origin(prev);
        assert forall|k: int| 0 <= k < wall_events(prev).len() implies #[trigger] elsewhere(
            walls,
            a,
            wall_events(prev)[k].0,
        ) by {
            let w = wall_events(prev)[k].0;
            assert(prev.contains(w));
            let b = choose|b: int| 0 <= b < prev.len() && prev[b] == w;
            assert(walls[b] == prev[b]);
        }
        lemma_wall_priority_elsewhere(tags, wall_events(prev), walls, a);
        assert forall|l: u8| #[trigger] wall_weight_at(tags, wall_events(walls), walls[a], l)
            == tags_weight_at(tags, walls[a].tags, l) by {
            assert(wall_weight_at(tags, wall_events(prev), walls[a], l) == 0);
            assert(wall_weight_at(tags, own_events(last, last.tags), walls[a], l)
                == tags_weight_at(tags, last.tags, l));
        }
    }
}

/// The higher level decides a wallpaper's weight, whatever the order of its
/// tags: where the database lists each wallpaper once, each selected
/// wallpaper holds the highest level among its active tags and weighs the
/// sum of the weights of its active tags at that level, a tag counted once
/// for each time the wallpaper lists it.
pub proof fn higher_level_decides_wallpaper_weight(rules: Seq<RuleView>, walls: Seq<WallpaperView>)
    requires
        walls_distinct(walls),
    ensures
        forall|i: int|
            0 <= i < weighing(rules, walls).keys.len() ==> top_tag_level(
                tag_table(rules),
                #[trigger] weighing(rules, walls).keys[i].tags,
            ) == Some(weighing(rules, walls).levels[i]) && weighing(rules, walls).weights[i]
                == tags_weight_at(
                tag_table(rules),
                weighing(rules, walls).keys[i].tags,
                weighing(rules, walls).levels[i],
            ),
{
    let tags = tag_table(rules);
    let events = wall_events(walls);
    lemma_tag_fold_wf(tag_events(rules, min_level(rules)));
    lemma_wall_events_origin(walls);
    lemma_wall_fold_priority(tags, walls, events);
    let m = weighing(rules, walls);
    assert forall|i: int| 0 <= i < m.keys.len() implies top_tag_level(
        tags,
        #[trigger] m.keys[i].tags,
    ) == Some(m.levels[i]) && m.weights[i] == tags_weight_at(tags, m.keys[i].tags, m.levels[i]) by {
        let a = choose|a: int| 0 <= a < walls.len() && walls[a] == m.keys[i];
        lemma_wallpaper_priority(tags, walls, a);
    }
}


/// Asking again with the rules just returned reports no change: where no
/// rule changes its truth value between two selections, the second one,
/// made with the active rules that the first returned, is `None`.
pub proof fn selecting_again_reports_no_change(
    rules: Seq<RuleView>,
    walls: Seq<WallpaperView>,
    truth: Seq<bool>,
    current: Seq<RuleView>,
)
    requires
        selection(rules, walls, truth, current) is Some,
    ensures
        selection(rules, walls, truth, (selection(rules, walls, truth, current)->0).2) is None,
{
    lemma_rules_unchanged(active_rules(rules, truth));
}

/// While paused the countdown is frozen: any two reports of a paused
/// schedule give the same time left, the same time between changes and the
/// same state, however much time passed between them.
pub proof fn paused_countdown_is_frozen(s: Schedule, a: Info, ea: Span, b: Info, eb: Span)
    requires
        s.wf(),
        s.spec_state() is Paused,
        s.reports_after(a, ea),
        s.reports_after(b, eb),
    ensures
        a.time_left.total() == b.time_left.total(),
        a.duration == b.duration,
        a.playing == b.playing,
{
}

/// Pausing keeps the countdown: a playing schedule paused once `elapsed` of
/// its period has passed reports, from then on, the time left that it had
/// at that moment.
pub proof fn pausing_keeps_the_countdown(s: Schedule, elapsed: Span, t: Schedule, b: Info, eb: Span)
    requires
        s.wf(),
        s.spec_state() is Playing,
        elapsed.wf(),
        t.spec_state() == s.spec_state().spec_paused_after(elapsed),
        t.spec_sleep() == s.spec_sleep(),
        t.reports_after(b, eb),
    ensures
        b.time_left.total() == s.spec_time_left(elapsed),
        !b.playing,
{
}

/// Pausing and then resuming keeps the period: a playing state paused once
/// `elapsed` has passed, then resumed at `now` from the instant `elapsed`
/// before `now`, which is where the period started when no time passes
/// between the two, plays again from that start.
pub proof fn pause_then_resume_keeps_the_start(start: Instant, elapsed: Span, now: Instant)
    ensures
        State::Playing(start).spec_paused_after(elapsed).spec_resumed_from(now, Some(start))
            == State::Playing(start),
{
}

/// Resuming and then pausing keeps the span: a state paused after `d`,
/// resumed at `now` from an instant `d` before `now`, and paused again when
/// `d` has passed since that instant (no time passes between the two), holds
/// `d` again.
pub proof fn resume_then_pause_keeps_the_span(d: Span, now: Instant, start: Option<Instant>)
    ensures
        State::Paused(d).spec_resumed_from(now, start).spec_paused_after(d) == State::Paused(d),
{
}

/// A change restarts the countdown only while playing: the state after a
/// change at `now` plays from `now` where it played, and is untouched where
/// it was paused.
pub proof fn a_change_restarts_only_a_playing_countdown(st: State, now: Instant)
    ensures
        st is Playing ==> st.spec_restarted_at(now) == State::Playing(now),
        st is Paused ==> st.spec_restarted_at(now) == st,
{
}


/// The rules are weighed at one moment: two rules with the same condition
/// are both active or both inactive.
pub proof fn rules_with_one_condition_agree(rules: Seq<RuleView>, truth: Seq<bool>, i: int, j: int)
    requires
        truth_possible(rules, truth),
        0 <= i < rules.len(),
        0 <= j < rules.len(),
        rules[i].condition == rules[j].condition,
    ensures
        truth[i] == truth[j],
{
    let (day, now) = choose|day: CalendarDay, now: ClockTime|
        #[trigger] truth_at_moment(rules, truth, day, now);
    assert(truth[i] == rules[i].condition.holds_at(day, now));
    assert(truth[j] == rules[j].condition.holds_at(day, now));
}

/// The rules are weighed at one moment: where a daily rule's time range lies
/// within another daily rule's, the first is active only when the second is;
/// and of two daily rules whose ranges do not meet, at most one is active.
pub proof fn daily_rules_share_the_time_of_day(
    rules: Seq<RuleView>,
    truth: Seq<bool>,
    i: int,
    j: int,
    a: TimeRange,
    b: TimeRange,
)
    requires
        truth_possible(rules, truth),
        0 <= i < rules.len(),
        0 <= j < rules.len(),
        rules[i].condition == ConditionView::Time((TimeView::Daily { range: a })),
        rules[j].condition == ConditionView::Time((TimeView::Daily { range: b })),
    ensures
        b.start.spec_le(a.start) && a.end.spec_le(b.end) ==> (truth[i] ==> truth[j]),
        a.end.secs < b.start.secs || b.end.secs < a.start.secs ==> !(truth[i] && truth[j]),
{
    let (day, now) = choose|day: CalendarDay, now: ClockTime|
        #[trigger] truth_at_moment(rules, truth, day, now);
    assert(truth[i] == rules[i].condition.holds_at(day, now));
    assert(truth[j] == rules[j].condition.holds_at(day, now));
}

/// Rules that always hold are active and rules that never hold are not,
/// whenever the rules are weighed.
pub proof fn always_and_never_rules_are_fixed(rules: Seq<RuleView>, truth: Seq<bool>, i: int)
    requires
        truth_possible(rules, truth),
        0 <= i < rules.len(),
    ensures
        rules[i].condition is Always ==> truth[i],
        rules[i].condition is Never ==> !truth[i],
{
    let (day, now) = choose|day: CalendarDay, now: ClockTime|
        #[trigger] truth_at_moment(rules, truth, day, now);
    assert(truth[i] == rules[i].condition.holds_at(day, now));
}

/// A date condition holds only on its date, whatever the year: on the day of
/// its month, within its time range; and there, within the range, it holds.
pub proof fn a_date_condition_holds_on_its_date(
    date: Date,
    range: TimeRange,
    day: CalendarDay,
    now: ClockTime,
)
    ensures
        (TimeView::Date { date, range }).holds_at(day, now) ==> day.month == date.month && day.day
            == date.day && range.start.spec_le(now) && now.spec_le(range.end),
        day.month == date.month && day.day == date.day && range.start.spec_le(now)
            && now.spec_le(range.end) ==> (TimeView::Date { date, range }).holds_at(day, now),
{
}

/// A date condition holds on one day of the year: two days on which it holds
/// share their month and day of month.
pub proof fn a_date_condition_holds_on_one_day(
    date: Date,
    range: TimeRange,
    d1: CalendarDay,
    t1: ClockTime,
    d2: CalendarDay,
    t2: ClockTime,
)
    requires
        (TimeView::Date { date, range }).holds_at(d1, t1),
        (TimeView::Date { date, range }).holds_at(d2, t2),
    ensures
        d1.month == d2.month,
        d1.day == d2.day,
{
}

/// A daily condition does not look at the calendar: it holds at a time of
/// day on every day or on none, exactly within its time range.
pub proof fn a_daily_condition_ignores_the_day(
    range: TimeRange,
    d1: CalendarDay,
    d2: CalendarDay,
    now: ClockTime,
)
    ensures
        (TimeView::Daily { range }).holds_at(d1, now) == (TimeView::Daily { range }).holds_at(d2, now),
        (TimeView::Daily { range }).holds_at(d1, now) == (range.start.spec_le(now) && now.spec_le(
            range.end,
        )),
{
}

/// A weekday condition holds only on the weekdays it lists, and there within
/// its time range.
pub proof fn a_weekday_condition_holds_on_its_days(
    days: Seq<Weekday>,
    range: TimeRange,
    day: CalendarDay,
    now: ClockTime,
)
    ensures
        (TimeView::Weekday { days, range }).holds_at(day, now) == (days.contains(day.weekday)
            && range.start.spec_le(now) && now.spec_le(range.end)),
{
}

/// The short letter of each option of `info` is the first letter of its long
/// name.
pub proof fn info_letters_are_initials(name: Seq<char>)
    requires
        flag_named(name) is Some,
    ensures
        name.len() > 0,
        flag_letter(name[0]) == flag_named(name),
{
    reveal_strlit("wallpaper");
    reveal_strlit("duration");
    reveal_strlit("time-left");
    reveal_strlit("exact");
    reveal_strlit("pretty");
    reveal_strlit("json");
}

/// The client finds every command that the daemon answers: a text that names
/// a request other than a tick (`kill`, `next`, `reload`, `info`) is a
/// command, and so are the help commands.
pub proof fn the_client_finds_every_request(text: Seq<char>)
    ensures
        request_for(text) != Request::Tick ==> is_command_text(text),
        text == "help"@ || text == "-h"@ || text == "--help"@ ==> is_command_text(text),
{
}

} // verus!
