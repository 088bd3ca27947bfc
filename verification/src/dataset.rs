//! Tags, wallpapers and the database that weighs wallpapers by the rules that
//! hold.
use vstd::prelude::*;
use crate::paths::{path_file_name, paths_equal, file_name, same_path};
use crate::rules::{Rule, RuleView, CalendarDay, ClockTime};
use crate::tables::{
    Table, TagEvent, is_first_index, is_first_wallpaper, tag_step, tag_fold, tag_fold_fits,
    rule_events, tag_events, min_level, tag_table, tag_table_fits, lemma_first_index_found,
    lemma_first_index_absent, lemma_tag_events_prefix, lemma_tag_fits_prefix, WallEvent, wall_step,
    wall_fold, wall_fold_fits, wallpaper_events, wall_events, lemma_wallpaper_slot_found,
    lemma_wallpaper_slot_absent, lemma_wall_events_prefix, lemma_wall_fits_prefix, lemma_tag_fold_wf,
    active_rules, rules_changed, weighing, weighing_fits,
};

verus! {

/// A tag, found by its name.
#[derive(Debug, Clone)]
pub struct Tag {
    pub name: String,
}

impl Tag {
    /// A tag with the given name.
    pub fn new(name: String) -> (t: Tag)
        ensures
            t.name@ == name@,
    {
        Tag { name }
    }
}

/// The names of a list of tags.
pub open spec fn tags_view(tags: Seq<Tag>) -> Seq<Seq<char>> {
    tags.map_values(|t: Tag| t.name@)
}

/// A copy of a list of tags.
pub fn clone_tags(tags: &Vec<Tag>) -> (r: Vec<Tag>)
    ensures
        tags_view(r@) == tags_view(tags@),
{
    let mut r: Vec<Tag> = Vec::new();
    let mut i: usize = 0;
    while i < tags.len()
        invariant
            i <= tags.len(),
            r.len() == i,
            forall|j: int| 0 <= j < i ==> #[trigger] r@[j].name@ == tags@[j].name@,
        decreases tags.len() - i,
    {
        r.push(Tag { name: tags[i].name.clone() });
        i = i + 1;
    }
    assert(tags_view(r@) =~= tags_view(tags@));
    r
}

/// Whether two lists of tags hold the same names in the same order.
pub fn same_tags(a: &Vec<Tag>, b: &Vec<Tag>) -> (r: bool)
    ensures
        r == (tags_view(a@) == tags_view(b@)),
{
    if a.len() != b.len() {
        assert(tags_view(a@).len() != tags_view(b@).len());
        return false;
    }
    let mut i: usize = 0;
    while i < a.len()
        invariant
            i <= a.len(),
            a.len() == b.len(),
            forall|j: int| 0 <= j < i ==> a@[j].name@ == b@[j].name@,
        decreases a.len() - i,
    {
        if a[i].name != b[i].name {
            assert(tags_view(a@)[i as int] != tags_view(b@)[i as int]);
            return false;
        }
        i = i + 1;
    }
    assert(tags_view(a@) =~= tags_view(b@));
    true
}

/// The kind of media a wallpaper is.
#[derive(Debug, Clone, Copy, PartialEq, Eq, Structural)]
pub enum WallpaperType {
    Picture,
    Animation,
    Video,
}

/// The abstract value of a wallpaper.
pub struct WallpaperView {
    pub name: Seq<char>,
    pub path: Seq<char>,
    pub tags: Seq<Seq<char>>,
    pub kind: WallpaperType,
}

/// Two wallpapers are the same wallpaper when their names, paths (compared as
/// paths), tags and kinds are equal.
pub open spec fn wallpaper_matches(a: WallpaperView, b: WallpaperView) -> bool {
    a.name == b.name && paths_equal(a.path, b.path) && a.tags == b.tags && a.kind == b.kind
}

/// A wallpaper file with the tags that select it.
#[derive(Debug, Clone)]
pub struct Wallpaper {
    name: String,
    pub path: String,
    tags: Vec<Tag>,
    kind: WallpaperType,
}

impl View for Wallpaper {
    type V = WallpaperView;

    closed spec fn view(&self) -> WallpaperView {
        WallpaperView {
            name: self.name@,
            path: self.path@,
            tags: tags_view(self.tags@),
            kind: self.kind,
        }
    }
}

impl Wallpaper {
    /// A picture named by the final component of its path.
    pub fn new(path: String, tags: Vec<Tag>) -> (w: Wallpaper)
        requires
            path_file_name(path@) is Some,
        ensures
            w@ == (WallpaperView {
                name: path_file_name(path@)->0,
                path: path@,
                tags: tags_view(tags@),
                kind: WallpaperType::Picture,
            }),
    {
        let name = match file_name(&path) {
            Some(name) => name,
            None => String::new(),
        };
        Wallpaper { name, path, tags, kind: WallpaperType::Picture }
    }

    /// A picture named by the final component of its path, or `None` where
    /// the path has no final component.
    pub fn try_new(path: String, tags: Vec<Tag>) -> (w: Option<Wallpaper>)
        ensures
            match path_file_name(path@) {
                Some(name) => w is Some && w->0@ == (WallpaperView {
                    name,
                    path: path@,
                    tags: tags_view(tags@),
                    kind: WallpaperType::Picture,
                }),
                None => w is None,
            },
    {
        match file_name(&path) {
            Some(_) => Some(Wallpaper::new(path, tags)),
            None => None,
        }
    }

    /// A picture with the given name.
    pub fn new_with_name(name: String, path: String, tags: Vec<Tag>) -> (w: Wallpaper)
        ensures
            w@ == (WallpaperView {
                name: name@,
                path: path@,
                tags: tags_view(tags@),
                kind: WallpaperType::Picture,
            }),
    {
        Wallpaper { name, path, tags, kind: WallpaperType::Picture }
    }

    /// A wallpaper of any kind.
    pub fn with_kind(name: String, path: String, tags: Vec<Tag>, kind: WallpaperType) -> (w:
        Wallpaper)
        ensures
            w@ == (WallpaperView { name: name@, path: path@, tags: tags_view(tags@), kind }),
    {
        Wallpaper { name, path, tags, kind }
    }

    pub fn name(&self) -> (r: &String)
        ensures
            r@ == self@.name,
    {
        &self.name
    }

    pub fn tags(&self) -> (r: &Vec<Tag>)
        ensures
            tags_view(r@) == self@.tags,
    {
        &self.tags
    }

    pub fn path(&self) -> (r: &String)
        ensures
            r@ == self@.path,
    {
        &self.path
    }

    pub fn kind(&self) -> (r: WallpaperType)
        ensures
            r == self@.kind,
    {
        self.kind
    }

    /// A copy of the wallpaper.
    pub fn duplicate(&self) -> (r: Wallpaper)
        ensures
            r@ == self@,
    {
        Wallpaper {
            name: self.name.clone(),
            path: self.path.clone(),
            tags: clone_tags(&self.tags),
            kind: self.kind,
        }
    }

    /// Whether the two wallpapers are the same wallpaper.
    pub fn same_as(&self, other: &Wallpaper) -> (r: bool)
        ensures
            r == wallpaper_matches(self@, other@),
    {
        self.name == other.name && same_path(&self.path, &other.path) && same_tags(
            &self.tags,
            &other.tags,
        ) && self.kind == other.kind
    }
}

/// The abstract values of a list of rules.
pub open spec fn rules_view(rules: Seq<Rule>) -> Seq<RuleView> {
    rules.map_values(|r: Rule| r@)
}

/// The abstract values of a list of wallpapers.
pub open spec fn walls_view(walls: Seq<Wallpaper>) -> Seq<WallpaperView> {
    walls.map_values(|w: Wallpaper| w@)
}

/// A list of weights as integers.
pub open spec fn weights_view(weights: Seq<u32>) -> Seq<int> {
    weights.map_values(|w: u32| w as int)
}

/// The weight and level of each active tag, in order of first activation.
pub struct TagTable {
    pub tags: Vec<Tag>,
    pub weights: Vec<u32>,
    pub levels: Vec<u8>,
}

impl TagTable {
    pub open spec fn table(&self) -> Table<Seq<char>> {
        Table {
            keys: tags_view(self.tags@),
            weights: weights_view(self.weights@),
            levels: self.levels@,
        }
    }
}

/// The first position of `name` among the tags, if it occurs.
fn find_tag(tags: &Vec<Tag>, name: &String) -> (r: Option<usize>)
    ensures
        match r {
            Some(i) => is_first_index(tags_view(tags@), name@, i as int),
            None => forall|j: int| 0 <= j < tags.len() ==> tags_view(tags@)[j] != name@,
        },
{
    let mut i: usize = 0;
    while i < tags.len()
        invariant
            i <= tags.len(),
            forall|j: int| 0 <= j < i ==> tags_view(tags@)[j] != name@,
        decreases tags.len() - i,
    {
        if tags[i].name == *name {
            return Some(i);
        }
        i = i + 1;
    }
    None
}

/// The first position of a wallpaper that matches `w`, if there is one.
fn find_wallpaper(walls: &Vec<Wallpaper>, w: &Wallpaper) -> (r: Option<usize>)
    ensures
        match r {
            Some(i) => is_first_wallpaper(walls_view(walls@), w@, i as int),
            None => forall|j: int|
                0 <= j < walls.len() ==> !wallpaper_matches(walls_view(walls@)[j], w@),
        },
{
    let mut i: usize = 0;
    while i < walls.len()
        invariant
            i <= walls.len(),
            forall|j: int| 0 <= j < i ==> !wallpaper_matches(walls_view(walls@)[j], w@),
        decreases walls.len() - i,
    {
        if walls[i].same_as(w) {
            return Some(i);
        }
        i = i + 1;
    }
    None
}

/// Whether a rule equal to `r` occurs in the list.
fn contains_rule(rules: &Vec<Rule>, r: &Rule) -> (b: bool)
    ensures
        b == rules_view(rules@).contains(r@),
{
    let mut i: usize = 0;
    while i < rules.len()
        invariant
            i <= rules.len(),
            forall|j: int| 0 <= j < i ==> rules_view(rules@)[j] != r@,
        decreases rules.len() - i,
    {
        if rules[i].same_as(r) {
            assert(rules_view(rules@)[i as int] == r@);
            return true;
        }
        i = i + 1;
    }
    false
}

/// The highest level among the rules that are not transparent, or 0.
fn min_level_of(rules: &Vec<Rule>) -> (m: u8)
    ensures
        m == min_level(rules_view(rules@)),
{
    let ghost rv = rules_view(rules@);
    let mut m: u8 = 0;
    let mut i: usize = 0;
    assert(rv.take(0) =~= Seq::<RuleView>::empty());
    while i < rules.len()
        invariant
            i <= rules.len(),
            rv == rules_view(rules@),
            m == min_level(rv.take(i as int)),
        decreases rules.len() - i,
    {
        assert(rv.take(i + 1).drop_last() =~= rv.take(i as int));
        assert(rv.take(i + 1).last() == rules@[i as int]@);
        if !rules[i].is_transparent() && rules[i].level() > m {
            m = rules[i].level();
        }
        i = i + 1;
    }
    assert(rv.take(rules.len() as int) =~= rv);
    m
}

/// The tag table of the rules, or `None` where a weight overflows.
fn generate_checked(rules: &Vec<Rule>) -> (r: Option<TagTable>)
    ensures
        r is Some <==> tag_table_fits(rules_view(rules@)),
        r matches Some(t) ==> t.table() == tag_table(rules_view(rules@)),
{
    let ghost rv = rules_view(rules@);
    let min = min_level_of(rules);
    let ghost all = tag_events(rv, min);
    let mut table = TagTable { tags: Vec::new(), weights: Vec::new(), levels: Vec::new() };
    let mut i: usize = 0;
    assert(rv.take(0) =~= Seq::<RuleView>::empty());
    assert(table.table() =~= Table::<Seq<char>>::empty());
    while i < rules.len()
        invariant
            i <= rules.len(),
            rv == rules_view(rules@),
            min == min_level(rv),
            all == tag_events(rv, min),
            table.table() == tag_fold(tag_events(rv.take(i as int), min)),
            tag_fold_fits(tag_events(rv.take(i as int), min)),
            table.tags.len() == table.weights.len(),
            table.tags.len() == table.levels.len(),
        decreases rules.len() - i,
    {
        let ghost before = tag_events(rv.take(i as int), min);
        let ghost ri = rv[i as int];
        assert(rv.take(i + 1).drop_last() =~= rv.take(i as int));
        assert(rv.take(i + 1).last() == ri);
        if rules[i].level() >= min {
            let (tags, weight, level) = rules[i].load();
            assert(tag_events(rv.take(i + 1), min) == before + rule_events(ri));
            proof {
                lemma_tag_events_prefix(rv, min, i + 1);
            }
            let mut j: usize = 0;
            assert(before + rule_events(ri).take(0) =~= before);
            while j < tags.len()
                invariant
                    j <= tags.len(),
                    rv == rules_view(rules@),
                    min == min_level(rv),
                    all == tag_events(rv, min),
                    all.take((before + rule_events(ri)).len() as int) == before + rule_events(ri),
                    (before + rule_events(ri)).len() <= all.len(),
                    tags_view(tags@) == ri.tags,
                    weight == ri.weight,
                    level == ri.level,
                    table.table() == tag_fold(before + rule_events(ri).take(j as int)),
                    tag_fold_fits(before + rule_events(ri).take(j as int)),
                    table.tags.len() == table.weights.len(),
                    table.tags.len() == table.levels.len(),
                decreases tags.len() - j,
            {
                let ghost evs = before + rule_events(ri).take(j as int);
                let ghost e: TagEvent = (tags_view(tags@)[j as int], weight, level);
                let ghost next = evs.push(e);
                assert(next =~= before + rule_events(ri).take(j + 1));
                assert(next.drop_last() =~= evs);
                assert(next.last() == e);
                assert(tag_fold(next) == tag_step(tag_fold(evs), e));
                let ghost t0 = table.table();
                match find_tag(&table.tags, &tags[j].name) {
                    Some(k) => {
                        proof {
                            lemma_first_index_found(t0.keys, e.0, k as int);
                        }
                        if table.levels[k] == level {
                            match table.weights[k].checked_add(weight) {
                                Some(sum) => {
                                    table.weights.set(k, sum);
                                    assert(table.table() =~= t0.add_at(k as int, weight as int));
                                },
                                None => {
                                    proof {
                                        assert(tag_fold(next).weights[k as int] > u32::MAX);
                                        assert(!tag_fold(next).fits());
                                        let whole = before + rule_events(ri);
                                        assert(rule_events(ri).len() == tags.len());
                                        assert(next.len() <= whole.len());
                                        assert(all.take(next.len() as int) =~= all.take(
                                            whole.len() as int,
                                        ).take(next.len() as int));
                                        assert(whole.take(next.len() as int) =~= next);
                                        assert(all.take(next.len() as int) =~= next);
                                        if tag_fold_fits(all) {
                                            lemma_tag_fits_prefix(all, next.len() as int);
                                        }
                                    }
                                    return None;
                                },
                            }
                        } else if table.levels[k] < level {
                            table.weights.set(k, weight);
                            table.levels.set(k, level);
                            assert(table.table() =~= t0.set_at(k as int, weight as int, level));
                        } else {
                            assert(table.table() == t0);
                        }
                    },
                    None => {
                        proof {
                            lemma_first_index_absent(t0.keys, e.0);
                        }
                        table.tags.push(Tag { name: tags[j].name.clone() });
                        table.weights.push(weight);
                        table.levels.push(level);
                        assert(table.table() =~= t0.append(e.0, weight as int, level));
                    },
                }
                assert(table.table().fits());
                j = j + 1;
            }
            assert(rule_events(ri).take(tags.len() as int) =~= rule_events(ri));
        } else {
            assert(tag_events(rv.take(i + 1), min) == before);
        }
        i = i + 1;
    }
    assert(rv.take(rules.len() as int) =~= rv);
    Some(table)
}

/// The wallpapers weighed by the tag table, with their weights, or `None`
/// where a weight overflows.
fn weigh_checked(tags: &TagTable, walls: &Vec<Wallpaper>) -> (r: Option<(Vec<Wallpaper>, Vec<u32>)>)
    requires
        tags.table().wf(),
    ensures
        r is Some <==> wall_fold_fits(tags.table(), wall_events(walls_view(walls@))),
        r matches Some((keys, weights)) ==> {
            &&& walls_view(keys@) == wall_fold(tags.table(), wall_events(walls_view(walls@))).keys
            &&& weights_view(weights@) == wall_fold(
                tags.table(),
                wall_events(walls_view(walls@)),
            ).weights
        },
{
    let ghost tt = tags.table();
    let ghost wv = walls_view(walls@);
    let ghost all = wall_events(wv);
    let mut keys: Vec<Wallpaper> = Vec::new();
    let mut weights: Vec<u32> = Vec::new();
    let mut levels: Vec<u8> = Vec::new();
    let mut i: usize = 0;
    assert(wv.take(0) =~= Seq::<WallpaperView>::empty());
    assert(wall_fold(tt, wall_events(wv.take(0))) =~= (Table {
        keys: walls_view(keys@),
        weights: weights_view(weights@),
        levels: levels@,
    }));
    while i < walls.len()
        invariant
            i <= walls.len(),
            tt == tags.table(),
            tt.wf(),
            wv == walls_view(walls@),
            all == wall_events(wv),
            wall_fold(tt, wall_events(wv.take(i as int))) == (Table {
                keys: walls_view(keys@),
                weights: weights_view(weights@),
                levels: levels@,
            }),
            wall_fold_fits(tt, wall_events(wv.take(i as int))),
            keys.len() == weights.len(),
            keys.len() == levels.len(),
        decreases walls.len() - i,
    {
        let ghost before = wall_events(wv.take(i as int));
        let ghost wi = wv[i as int];
        assert(wv.take(i + 1).drop_last() =~= wv.take(i as int));
        assert(wv.take(i + 1).last() == wi);
        assert(wall_events(wv.take(i + 1)) == before + wallpaper_events(wi));
        proof {
            lemma_wall_events_prefix(wv, i + 1);
        }
        let wall_tags = walls[i].tags();
        let mut j: usize = 0;
        assert(before + wallpaper_events(wi).take(0) =~= before);
        while j < wall_tags.len()
            invariant
                j <= wall_tags.len(),
                tt == tags.table(),
                tt.wf(),
                wv == walls_view(walls@),
                all == wall_events(wv),
                i < walls.len(),
                wi == wv[i as int],
                all.take((before + wallpaper_events(wi)).len() as int) == before
                    + wallpaper_events(wi),
                (before + wallpaper_events(wi)).len() <= all.len(),
                tags_view(wall_tags@) == wi.tags,
                wall_fold(tt, before + wallpaper_events(wi).take(j as int)) == (Table {
                    keys: walls_view(keys@),
                    weights: weights_view(weights@),
                    levels: levels@,
                }),
                wall_fold_fits(tt, before + wallpaper_events(wi).take(j as int)),
                keys.len() == weights.len(),
                keys.len() == levels.len(),
            decreases wall_tags.len() - j,
        {
            let ghost evs = before + wallpaper_events(wi).take(j as int);
            let ghost e: WallEvent = (wi, tags_view(wall_tags@)[j as int]);
            let ghost next = evs.push(e);
            assert(next =~= before + wallpaper_events(wi).take(j + 1));
            assert(next.drop_last() =~= evs);
            assert(next.last() == e);
            assert(wall_fold(tt, next) == wall_step(tt, wall_fold(tt, evs), e));
            let ghost m0 = wall_fold(tt, evs);
            match find_tag(&tags.tags, &wall_tags[j].name) {
                None => {
                    proof {
                        lemma_first_index_absent(tt.keys, e.1);
                    }
                },
                Some(k) => {
                    proof {
                        lemma_first_index_found(tt.keys, e.1, k as int);
                    }
                    let tag_weight = tags.weights[k];
                    let tag_level = tags.levels[k];
                    assert(tt.weights[k as int] == tag_weight as int);
                    match find_wallpaper(&keys, &walls[i]) {
                        Some(p) => {
                            proof {
                                lemma_wallpaper_slot_found(m0.keys, e.0, p as int);
                            }
                            if levels[p] == tag_level {
                                match weights[p].checked_add(tag_weight) {
                                    Some(sum) => {
                                        weights.set(p, sum);
                                        assert(weights_view(weights@) =~= m0.add_at(
                                            p as int,
                                            tag_weight as int,
                                        ).weights);
                                    },
                                    None => {
                                        proof {
                                            assert(wall_fold(tt, next).weights[p as int]
                                                > u32::MAX);
                                            assert(!wall_fold(tt, next).fits());
                                            let whole = before + wallpaper_events(wi);
                                            assert(wallpaper_events(wi).len() == wall_tags.len());
                                            assert(next.len() <= whole.len());
                                            assert(all.take(next.len() as int) =~= all.take(
                                                whole.len() as int,
                                            ).take(next.len() as int));
                                            assert(whole.take(next.len() as int) =~= next);
                                            assert(all.take(next.len() as int) =~= next);
                                            if wall_fold_fits(tt, all) {
                                                lemma_wall_fits_prefix(tt, all, next.len() as int);
                                            }
                                        }
                                        return None;
                                    },
                                }
                            } else if levels[p] < tag_level {
                                weights.set(p, tag_weight);
                                levels.set(p, tag_level);
                                assert(weights_view(weights@) =~= m0.set_at(
                                    p as int,
                                    tag_weight as int,
                                    tag_level,
                                ).weights);
                                assert(levels@ =~= m0.set_at(
                                    p as int,
                                    tag_weight as int,
                                    tag_level,
                                ).levels);
                            } else {
                                assert(wall_fold(tt, next) == m0);
                            }
                        },
                        None => {
                            proof {
                                lemma_wallpaper_slot_absent(m0.keys, e.0);
                            }
                            keys.push(walls[i].duplicate());
                            weights.push(tag_weight);
                            levels.push(tag_level);
                            assert(walls_view(keys@) =~= m0.append(
                                e.0,
                                tag_weight as int,
                                tag_level,
                            ).keys);
                            assert(weights_view(weights@) =~= m0.append(
                                e.0,
                                tag_weight as int,
                                tag_level,
                            ).weights);
                        },
                    }
                },
            }
            assert(wall_fold(tt, next) =~= (Table {
                keys: walls_view(keys@),
                weights: weights_view(weights@),
                levels: levels@,
            }));
            assert(wall_fold(tt, next).fits());
            j = j + 1;
        }
        assert(wallpaper_events(wi).take(wall_tags.len() as int) =~= wallpaper_events(wi));
        i = i + 1;
    }
    assert(wv.take(walls.len() as int) =~= wv);
    Some((keys, weights))
}

/// The abstract value of a selection: the wallpapers, their weights and the
/// active rules.
pub open spec fn selection_view(r: Option<(Vec<Wallpaper>, Vec<u32>, Vec<Rule>)>) -> Option<
    (Seq<WallpaperView>, Seq<int>, Seq<RuleView>),
> {
    match r {
        Some((walls, weights, rules)) => Some(
            (walls_view(walls@), weights_view(weights@), rules_view(rules@)),
        ),
        None => None,
    }
}

/// What weighing the wallpapers by the rules active under `truth` yields,
/// given the rules that were active before: `None` where the set of active
/// rules has not changed, else the wallpapers that the active tags select, in
/// order of first selection, with their weights, and the active rules.
pub open spec fn selection(
    rules: Seq<RuleView>,
    walls: Seq<WallpaperView>,
    truth: Seq<bool>,
    current: Seq<RuleView>,
) -> Option<(Seq<WallpaperView>, Seq<int>, Seq<RuleView>)> {
    let active = active_rules(rules, truth);
    if rules_changed(active, current) {
        Some((weighing(active, walls).keys, weighing(active, walls).weights, active))
    } else {
        None
    }
}

/// The selection can be weighed without overflowing a weight.
pub open spec fn selection_fits(
    rules: Seq<RuleView>,
    walls: Seq<WallpaperView>,
    truth: Seq<bool>,
    current: Seq<RuleView>,
) -> bool {
    rules_changed(active_rules(rules, truth), current) ==> weighing_fits(
        active_rules(rules, truth),
        walls,
    )
}

/// `b` is the value of the rule's condition at some moment.
pub open spec fn value_at_some_moment(rule: RuleView, b: bool) -> bool {
    exists|day: CalendarDay, now: ClockTime|
        day.wf() && now.wf() && b == rule.condition.holds_at(day, now)
}

/// The truth values are those of the rules' conditions on the calendar day
/// `day` at the time of day `now`.
pub open spec fn truth_at_moment(
    rules: Seq<RuleView>,
    truth: Seq<bool>,
    day: CalendarDay,
    now: ClockTime,
) -> bool {
    &&& day.wf()
    &&& now.wf()
    &&& truth.len() == rules.len()
    &&& forall|i: int|
        0 <= i < rules.len() ==> truth[i] == #[trigger] rules[i].condition.holds_at(day, now)
}

/// The truth values are those of the rules' conditions at one moment: one
/// calendar day and one time of day, the same for every rule.
pub open spec fn truth_possible(rules: Seq<RuleView>, truth: Seq<bool>) -> bool {
    exists|day: CalendarDay, now: ClockTime| #[trigger] truth_at_moment(rules, truth, day, now)
}

/// Weighing the wallpapers would take a weight past `u32::MAX`.
#[derive(Debug, Clone, Copy, PartialEq, Eq, Structural)]
pub struct WeightOverflow;

/// The tags, wallpapers and rules that the manager works from.
#[derive(Debug, Clone)]
pub struct Database {
    pub tags: Vec<Tag>,
    pub wallpapers: Vec<Wallpaper>,
    pub rules: Vec<Rule>,
}

impl Default for Database {
    fn default() -> (d: Database)
        ensures
            d.tags@.len() == 0,
            d.wallpapers@.len() == 0,
            d.rules@.len() == 0,
    {
        Database { tags: Vec::new(), wallpapers: Vec::new(), rules: Vec::new() }
    }
}

impl Database {
    /// The weight and level of each tag that the rules activate: only the
    /// rules at or above the highest level among the opaque rules count, and
    /// of those the highest level that lists a tag decides its weight, the
    /// sum of the weights of the rules at that level that list it.
    pub fn generate(&self, rules: &Vec<Rule>) -> (t: TagTable)
        requires
            tag_table_fits(rules_view(rules@)),
        ensures
            t.table() == tag_table(rules_view(rules@)),
    {
        match generate_checked(rules) {
            Some(t) => t,
            None => vstd::pervasive::unreached(),
        }
    }

    /// The rules whose truth value is set, copied in order.
    fn active(&self, truth: &Vec<bool>) -> (r: Vec<Rule>)
        requires
            truth.len() == self.rules.len(),
        ensures
            rules_view(r@) == active_rules(rules_view(self.rules@), truth@),
    {
        let ghost rv = rules_view(self.rules@);
        let mut r: Vec<Rule> = Vec::new();
        let mut i: usize = 0;
        assert(rv.take(0) =~= Seq::<RuleView>::empty());
        assert(rules_view(r@) =~= Seq::<RuleView>::empty());
        while i < self.rules.len()
            invariant
                i <= self.rules.len(),
                truth.len() == self.rules.len(),
                rv == rules_view(self.rules@),
                rules_view(r@) == active_rules(rv.take(i as int), truth@),
            decreases self.rules.len() - i,
        {
            assert(rv.take(i + 1).drop_last() =~= rv.take(i as int));
            assert(rv.take(i + 1).last() == rv[i as int]);
            if truth[i] {
                let ghost r0 = r@;
                r.push(self.rules[i].duplicate());
                assert(rules_view(r@) =~= rules_view(r0).push(rv[i as int]));
            }
            i = i + 1;
        }
        assert(rv.take(self.rules.len() as int) =~= rv);
        r
    }

    /// Whether the set of active rules differs from the current one.
    fn changed(new_rules: &Vec<Rule>, current_rules: &Vec<Rule>) -> (b: bool)
        ensures
            b == rules_changed(rules_view(new_rules@), rules_view(current_rules@)),
    {
        let ghost nv = rules_view(new_rules@);
        let ghost cv = rules_view(current_rules@);
        let mut i: usize = 0;
        while i < new_rules.len()
            invariant
                i <= new_rules.len(),
                nv == rules_view(new_rules@),
                cv == rules_view(current_rules@),
                forall|k: int| 0 <= k < i ==> cv.contains(#[trigger] nv[k]),
            decreases new_rules.len() - i,
        {
            if !contains_rule(current_rules, &new_rules[i]) {
                assert(!cv.contains(nv[i as int]));
                return true;
            }
            i = i + 1;
        }
        let mut j: usize = 0;
        while j < current_rules.len()
            invariant
                j <= current_rules.len(),
                nv == rules_view(new_rules@),
                cv == rules_view(current_rules@),
                forall|k: int| 0 <= k < new_rules.len() ==> cv.contains(#[trigger] nv[k]),
                forall|k: int| 0 <= k < j ==> nv.contains(#[trigger] cv[k]),
            decreases current_rules.len() - j,
        {
            if !contains_rule(new_rules, &current_rules[j]) {
                assert(!nv.contains(cv[j as int]));
                return true;
            }
            j = j + 1;
        }
        false
    }

    /// The selection under `truth`: `Ok(None)` where the active rules are
    /// unchanged, `Err(WeightOverflow)` where weighing would overflow a
    /// weight.
    pub fn select_checked(&self, truth: &Vec<bool>, current_rules: &Vec<Rule>) -> (r: Result<
        Option<(Vec<Wallpaper>, Vec<u32>, Vec<Rule>)>,
        WeightOverflow,
    >)
        requires
            truth.len() == self.rules.len(),
        ensures
            r is Ok <==> selection_fits(
                rules_view(self.rules@),
                walls_view(self.wallpapers@),
                truth@,
                rules_view(current_rules@),
            ),
            r matches Ok(s) ==> selection_view(s) == selection(
                rules_view(self.rules@),
                walls_view(self.wallpapers@),
                truth@,
                rules_view(current_rules@),
            ),
    {
        let new_rules = self.active(truth);
        if !Self::changed(&new_rules, current_rules) {
            return Ok(None);
        }
        let tags = match generate_checked(&new_rules) {
            Some(t) => t,
            None => {
                return Err(WeightOverflow);
            },
        };
        proof {
            lemma_tag_fold_wf(crate::tables::tag_events(
                rules_view(new_rules@),
                min_level(rules_view(new_rules@)),
            ));
        }
        match weigh_checked(&tags, &self.wallpapers) {
            Some((walls, weights)) => Ok(Some((walls, weights, new_rules))),
            None => Err(WeightOverflow),
        }
    }

    /// Weighs the wallpapers by the rules that `truth` marks active, given
    /// the rules that were active before. `None` where the set of active rules
    /// is unchanged; else the wallpapers that the active tags select, their
    /// weights and the active rules.
    pub fn select_walls(&self, truth: &Vec<bool>, current_rules: &Vec<Rule>) -> (r: Option<
        (Vec<Wallpaper>, Vec<u32>, Vec<Rule>),
    >)
        requires
            truth.len() == self.rules.len(),
            selection_fits(
                rules_view(self.rules@),
                walls_view(self.wallpapers@),
                truth@,
                rules_view(current_rules@),
            ),
        ensures
            selection_view(r) == selection(
                rules_view(self.rules@),
                walls_view(self.wallpapers@),
                truth@,
                rules_view(current_rules@),
            ),
    {
        match self.select_checked(truth, current_rules) {
            Ok(s) => s,
            Err(WeightOverflow) => None,
        }
    }

    /// Evaluates each rule's condition on the local clock, in order: the
    /// calendar day and the time of day are read once, and every rule is
    /// evaluated at that moment.
    pub(crate) fn evaluate_rules(&self) -> (truth: Vec<bool>)
        ensures
            truth_possible(rules_view(self.rules@), truth@),
    {
        let ghost rv = rules_view(self.rules@);
        let day = crate::rules::calendar_now();
        let now = crate::rules::clock_now();
        let mut truth: Vec<bool> = Vec::new();
        let mut i: usize = 0;
        while i < self.rules.len()
            invariant
                i <= self.rules.len(),
                rv == rules_view(self.rules@),
                truth.len() == i,
                day.wf(),
                now.wf(),
                forall|k: int| 0 <= k < i ==> truth@[k] == #[trigger] rv[k].condition.holds_at(day, now),
            decreases self.rules.len() - i,
        {
            let b = self.rules[i].holds_at(&day, now);
            truth.push(b);
            proof {
                assert(rv[i as int] == self.rules@[i as int]@);
            }
            i = i + 1;
        }
        assert(truth_at_moment(rv, truth@, day, now));
        truth
    }

    /// Weighs the wallpapers by the rules that hold now on the local clock,
    /// given the rules that were active before: `Ok(None)` where the set of
    /// active rules is unchanged, `Err(WeightOverflow)` where weighing would
    /// overflow a weight, else the wallpapers that the active tags select,
    /// their weights and the active rules.
    pub fn get_walls_checked(&self, current_rules: &Vec<Rule>) -> (r: Result<
        Option<(Vec<Wallpaper>, Vec<u32>, Vec<Rule>)>,
        WeightOverflow,
    >)
        ensures
            exists|truth: Seq<bool>|
                {
                    &&& truth_possible(rules_view(self.rules@), truth)
                    &&& r is Ok <==> selection_fits(
                        rules_view(self.rules@),
                        walls_view(self.wallpapers@),
                        truth,
                        rules_view(current_rules@),
                    )
                    &&& r matches Ok(s) ==> selection_view(s) == selection(
                        rules_view(self.rules@),
                        walls_view(self.wallpapers@),
                        truth,
                        rules_view(current_rules@),
                    )
                },
    {
        let truth = self.evaluate_rules();
        let r = self.select_checked(&truth, current_rules);
        assert(truth_possible(rules_view(self.rules@), truth@));
        r
    }

    /// Weighs the wallpapers by the rules that hold now on the local clock,
    /// given the rules that were active before. `None` where the set of
    /// active rules is unchanged, and also where weighing would overflow a
    /// weight (`get_walls_checked` tells the two apart); else the wallpapers
    /// that the active tags select, their weights and the active rules.
    pub fn get_walls(&self, current_rules: &Vec<Rule>) -> (r: Option<
        (Vec<Wallpaper>, Vec<u32>, Vec<Rule>),
    >)
        ensures
            exists|truth: Seq<bool>|
                {
                    &&& truth_possible(rules_view(self.rules@), truth)
                    &&& if selection_fits(
                        rules_view(self.rules@),
                        walls_view(self.wallpapers@),
                        truth,
                        rules_view(current_rules@),
                    ) {
                        selection_view(r) == selection(
                            rules_view(self.rules@),
                            walls_view(self.wallpapers@),
                            truth,
                            rules_view(current_rules@),
                        )
                    } else {
                        r is None
                    }
                },
    {
        match self.get_walls_checked(current_rules) {
            Ok(s) => s,
            Err(WeightOverflow) => None,
        }
    }
}

} // verus!
