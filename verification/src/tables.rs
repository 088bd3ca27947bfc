//! The mathematical model of the weight tables: tables of keys with a weight
//! and a level each, kept in the order in which the keys were first met, and
//! the folds that fill them from the active rules and from the wallpapers.
use vstd::prelude::*;
use crate::dataset::{WallpaperView, wallpaper_matches};
use crate::rules::RuleView;

verus! {

/// Keys, each with a weight and a level, in the order of first insertion.
#[verifier::ext_equal]
pub struct Table<K> {
    pub keys: Seq<K>,
    pub weights: Seq<int>,
    pub levels: Seq<u8>,
}

impl<K> Table<K> {
    pub open spec fn empty() -> Table<K> {
        Table { keys: Seq::empty(), weights: Seq::empty(), levels: Seq::empty() }
    }

    pub open spec fn wf(self) -> bool {
        self.weights.len() == self.keys.len() && self.levels.len() == self.keys.len()
    }

    /// Every weight fits in a `u32`.
    pub open spec fn fits(self) -> bool {
        forall|i: int| 0 <= i < self.weights.len() ==> #[trigger] self.weights[i] <= u32::MAX
    }

    /// Adds `w` to the weight at `i`.
    pub open spec fn add_at(self, i: int, w: int) -> Table<K> {
        Table {
            keys: self.keys,
            weights: self.weights.update(i, self.weights[i] + w),
            levels: self.levels,
        }
    }

    /// Replaces the weight and the level at `i`.
    pub open spec fn set_at(self, i: int, w: int, l: u8) -> Table<K> {
        Table { keys: self.keys, weights: self.weights.update(i, w), levels: self.levels.update(i, l) }
    }

    /// Appends a new key.
    pub open spec fn append(self, k: K, w: int, l: u8) -> Table<K> {
        Table { keys: self.keys.push(k), weights: self.weights.push(w), levels: self.levels.push(l) }
    }
}

/// `i` is the first position of `name` among `keys`.
pub open spec fn is_first_index(keys: Seq<Seq<char>>, name: Seq<char>, i: int) -> bool {
    &&& 0 <= i < keys.len()
    &&& keys[i] == name
    &&& forall|j: int| 0 <= j < i ==> keys[j] != name
}

/// The first position of `name` among `keys`, or -1.
pub open spec fn first_index(keys: Seq<Seq<char>>, name: Seq<char>) -> int {
    if exists|i: int| is_first_index(keys, name, i) {
        choose|i: int| is_first_index(keys, name, i)
    } else {
        -1
    }
}

/// `i` is the first position among `keys` of a wallpaper that matches `w`.
pub open spec fn is_first_wallpaper(keys: Seq<WallpaperView>, w: WallpaperView, i: int) -> bool {
    &&& 0 <= i < keys.len()
    &&& wallpaper_matches(keys[i], w)
    &&& forall|j: int| 0 <= j < i ==> !wallpaper_matches(keys[j], w)
}

/// The first position among `keys` of a wallpaper that matches `w`, or -1.
pub open spec fn wallpaper_slot(keys: Seq<WallpaperView>, w: WallpaperView) -> int {
    if exists|i: int| is_first_wallpaper(keys, w, i) {
        choose|i: int| is_first_wallpaper(keys, w, i)
    } else {
        -1
    }
}

pub proof fn lemma_first_index_found(keys: Seq<Seq<char>>, name: Seq<char>, i: int)
    requires
        is_first_index(keys, name, i),
    ensures
        first_index(keys, name) == i,
{
    let c = choose|c: int| is_first_index(keys, name, c);
    assert(is_first_index(keys, name, c));
    if c < i {
        assert(keys[c] != name);
    } else if c > i {
        assert(keys[i] != name);
    }
}

pub proof fn lemma_first_index_absent(keys: Seq<Seq<char>>, name: Seq<char>)
    requires
        forall|j: int| 0 <= j < keys.len() ==> keys[j] != name,
    ensures
        first_index(keys, name) == -1,
{
}

pub proof fn lemma_wallpaper_slot_found(keys: Seq<WallpaperView>, w: WallpaperView, i: int)
    requires
        is_first_wallpaper(keys, w, i),
    ensures
        wallpaper_slot(keys, w) == i,
{
    let c = choose|c: int| is_first_wallpaper(keys, w, c);
    assert(is_first_wallpaper(keys, w, c));
    if c < i {
        assert(!wallpaper_matches(keys[c], w));
    } else if c > i {
        assert(!wallpaper_matches(keys[i], w));
    }
}

pub proof fn lemma_wallpaper_slot_absent(keys: Seq<WallpaperView>, w: WallpaperView)
    requires
        forall|j: int| 0 <= j < keys.len() ==> !wallpaper_matches(keys[j], w),
    ensures
        wallpaper_slot(keys, w) == -1,
{
}

/// One occurrence of a tag in an active rule: the tag, the rule's weight and
/// the rule's level.
pub type TagEvent = (Seq<char>, u32, u8);

/// The higher level decides a tag's weight: a tag met again at the level it
/// holds adds the weight; met at a higher level it takes the new weight and
/// level; met at a lower level it stays as it is; met for the first time it
/// is appended.
pub open spec fn tag_step(t: Table<Seq<char>>, e: TagEvent) -> Table<Seq<char>> {
    let i = first_index(t.keys, e.0);
    if i >= 0 {
        if t.levels[i] == e.2 {
            t.add_at(i, e.1 as int)
        } else if t.levels[i] < e.2 {
            t.set_at(i, e.1 as int, e.2)
        } else {
            t
        }
    } else {
        t.append(e.0, e.1 as int, e.2)
    }
}

/// The tag table after the events, in order.
pub open spec fn tag_fold(events: Seq<TagEvent>) -> Table<Seq<char>>
    decreases events.len(),
{
    if events.len() == 0 {
        Table::empty()
    } else {
        tag_step(tag_fold(events.drop_last()), events.last())
    }
}

/// No weight overflows a `u32` at any point of the fold.
pub open spec fn tag_fold_fits(events: Seq<TagEvent>) -> bool
    decreases events.len(),
{
    events.len() == 0 || (tag_fold_fits(events.drop_last()) && tag_fold(events).fits())
}

/// The events of one rule: each of its tags with its weight and level.
pub open spec fn rule_events(r: RuleView) -> Seq<TagEvent> {
    r.tags.map_values(|t: Seq<char>| (t, r.weight, r.level))
}

/// The events of the rules whose level is at least `min`, rule by rule.
pub open spec fn tag_events(rules: Seq<RuleView>, min: u8) -> Seq<TagEvent>
    decreases rules.len(),
{
    if rules.len() == 0 {
        Seq::empty()
    } else if rules.last().level >= min {
        tag_events(rules.drop_last(), min) + rule_events(rules.last())
    } else {
        tag_events(rules.drop_last(), min)
    }
}

/// The highest level among the rules that are not transparent, or 0.
pub open spec fn min_level(rules: Seq<RuleView>) -> u8
    decreases rules.len(),
{
    if rules.len() == 0 {
        0
    } else {
        let m = min_level(rules.drop_last());
        if !rules.last().transparent && rules.last().level > m {
            rules.last().level
        } else {
            m
        }
    }
}

/// The weight and level of each tag that the rules activate.
pub open spec fn tag_table(rules: Seq<RuleView>) -> Table<Seq<char>> {
    tag_fold(tag_events(rules, min_level(rules)))
}

/// Building the tag table of the rules overflows no weight.
pub open spec fn tag_table_fits(rules: Seq<RuleView>) -> bool {
    tag_fold_fits(tag_events(rules, min_level(rules)))
}

/// One tag of one wallpaper.
pub type WallEvent = (WallpaperView, Seq<char>);

/// A tag of a wallpaper that the tag table knows gives the wallpaper the
/// tag's weight and level where the wallpaper is new. Otherwise the higher
/// level decides: a tag at the wallpaper's level adds its weight, a tag at a
/// higher level replaces the wallpaper's weight and level, and a tag at a
/// lower level leaves the wallpaper as it is.
pub open spec fn wall_step(
    tags: Table<Seq<char>>,
    m: Table<WallpaperView>,
    e: WallEvent,
) -> Table<WallpaperView> {
    let k = first_index(tags.keys, e.1);
    if k < 0 {
        m
    } else {
        let i = wallpaper_slot(m.keys, e.0);
        if i >= 0 {
            if m.levels[i] == tags.levels[k] {
                m.add_at(i, tags.weights[k])
            } else if m.levels[i] < tags.levels[k] {
                m.set_at(i, tags.weights[k], tags.levels[k])
            } else {
                m
            }
        } else {
            m.append(e.0, tags.weights[k], tags.levels[k])
        }
    }
}

pub open spec fn wall_fold(tags: Table<Seq<char>>, events: Seq<WallEvent>) -> Table<WallpaperView>
    decreases events.len(),
{
    if events.len() == 0 {
        Table::empty()
    } else {
        wall_step(tags, wall_fold(tags, events.drop_last()), events.last())
    }
}

pub open spec fn wall_fold_fits(tags: Table<Seq<char>>, events: Seq<WallEvent>) -> bool
    decreases events.len(),
{
    events.len() == 0 || (wall_fold_fits(tags, events.drop_last()) && wall_fold(tags, events).fits())
}

/// The events of one wallpaper: the wallpaper with each of its tags.
pub open spec fn wallpaper_events(w: WallpaperView) -> Seq<WallEvent> {
    w.tags.map_values(|t: Seq<char>| (w, t))
}

/// The events of the wallpapers, wallpaper by wallpaper.
pub open spec fn wall_events(ws: Seq<WallpaperView>) -> Seq<WallEvent>
    decreases ws.len(),
{
    if ws.len() == 0 {
        Seq::empty()
    } else {
        wall_events(ws.drop_last()) + wallpaper_events(ws.last())
    }
}

/// The rules whose truth value is set, in order.
pub open spec fn active_rules(rules: Seq<RuleView>, truth: Seq<bool>) -> Seq<RuleView>
    decreases rules.len(),
{
    if rules.len() == 0 {
        Seq::empty()
    } else if truth[rules.len() - 1] {
        active_rules(rules.drop_last(), truth).push(rules.last())
    } else {
        active_rules(rules.drop_last(), truth)
    }
}

/// The two lists of rules differ as sets.
pub open spec fn rules_changed(new: Seq<RuleView>, current: Seq<RuleView>) -> bool {
    ||| exists|i: int| 0 <= i < new.len() && !current.contains(#[trigger] new[i])
    ||| exists|j: int| 0 <= j < current.len() && !new.contains(#[trigger] current[j])
}

/// Weighing the wallpapers by the rules overflows no weight.
pub open spec fn weighing_fits(rules: Seq<RuleView>, walls: Seq<WallpaperView>) -> bool {
    tag_table_fits(rules) && wall_fold_fits(tag_table(rules), wall_events(walls))
}

/// The wallpapers that the rules select, each with its weight and level.
pub open spec fn weighing(rules: Seq<RuleView>, walls: Seq<WallpaperView>) -> Table<WallpaperView> {
    wall_fold(tag_table(rules), wall_events(walls))
}

// Lemmas on the folds.
pub proof fn lemma_tag_fold_wf(events: Seq<TagEvent>)
    ensures
        tag_fold(events).wf(),
    decreases events.len(),
{
    if events.len() > 0 {
        lemma_tag_fold_wf(events.drop_last());
    }
}

pub proof fn lemma_wall_fold_wf(tags: Table<Seq<char>>, events: Seq<WallEvent>)
    requires
        tags.wf(),
    ensures
        wall_fold(tags, events).wf(),
    decreases events.len(),
{
    if events.len() > 0 {
        lemma_wall_fold_wf(tags, events.drop_last());
        let k = first_index(tags.keys, events.last().1);
        if k >= 0 {
            assert(is_first_index(tags.keys, events.last().1, k));
        }
    }
}

/// A fold that fits fits on every prefix.
pub proof fn lemma_tag_fits_prefix(events: Seq<TagEvent>, k: int)
    requires
        tag_fold_fits(events),
        0 <= k <= events.len(),
    ensures
        tag_fold_fits(events.take(k)),
    decreases events.len(),
{
    if k == events.len() {
        assert(events.take(k) =~= events);
    } else {
        assert(events.drop_last().take(k) =~= events.take(k));
        lemma_tag_fits_prefix(events.drop_last(), k);
    }
}

pub proof fn lemma_wall_fits_prefix(tags: Table<Seq<char>>, events: Seq<WallEvent>, k: int)
    requires
        wall_fold_fits(tags, events),
        0 <= k <= events.len(),
    ensures
        wall_fold_fits(tags, events.take(k)),
    decreases events.len(),
{
    if k == events.len() {
        assert(events.take(k) =~= events);
    } else {
        assert(events.drop_last().take(k) =~= events.take(k));
        lemma_wall_fits_prefix(tags, events.drop_last(), k);
    }
}

/// The events of the first rules come first among the events of all rules.
pub proof fn lemma_tag_events_prefix(rules: Seq<RuleView>, min: u8, k: int)
    requires
        0 <= k <= rules.len(),
    ensures
        tag_events(rules.take(k), min).len() <= tag_events(rules, min).len(),
        tag_events(rules, min).take(tag_events(rules.take(k), min).len() as int)
            == tag_events(rules.take(k), min),
    decreases rules.len(),
{
    if k == rules.len() {
        assert(rules.take(k) =~= rules);
        assert(tag_events(rules, min).take(tag_events(rules, min).len() as int) =~= tag_events(
            rules,
            min,
        ));
    } else {
        assert(rules.drop_last().take(k) =~= rules.take(k));
        lemma_tag_events_prefix(rules.drop_last(), min, k);
        let a = tag_events(rules.take(k), min);
        let b = tag_events(rules.drop_last(), min);
        let c = tag_events(rules, min);
        if rules.last().level >= min {
            assert(c == b + rule_events(rules.last()));
            assert(c.take(a.len() as int) =~= b.take(a.len() as int));
        } else {
            assert(c == b);
        }
    }
}

pub proof fn lemma_wall_events_prefix(ws: Seq<WallpaperView>, k: int)
    requires
        0 <= k <= ws.len(),
    ensures
        wall_events(ws.take(k)).len() <= wall_events(ws).len(),
        wall_events(ws).take(wall_events(ws.take(k)).len() as int) == wall_events(ws.take(k)),
    decreases ws.len(),
{
    if k == ws.len() {
        assert(ws.take(k) =~= ws);
        assert(wall_events(ws).take(wall_events(ws).len() as int) =~= wall_events(ws));
    } else {
        assert(ws.drop_last().take(k) =~= ws.take(k));
        lemma_wall_events_prefix(ws.drop_last(), k);
        let a = wall_events(ws.take(k));
        let b = wall_events(ws.drop_last());
        let c = wall_events(ws);
        assert(c == b + wallpaper_events(ws.last()));
        assert(c.take(a.len() as int) =~= b.take(a.len() as int));
    }
}

} // verus!
