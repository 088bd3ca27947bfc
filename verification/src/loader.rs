//! The two wallpaper loaders: `Heap`, which weighs the wallpapers of a
//! database by the rules that hold, and `Simple`, which draws uniformly from
//! the pictures found in directories.
//!
//! Checking that a chosen file still exists is left to the caller: the
//! loaders hand out a step to take and take the answer back.
use vstd::prelude::*;
use rand::rngs::SmallRng;
use crate::dataset::{
    Database, Wallpaper, WallpaperView, tags_view, rules_view, walls_view, weights_view, selection,
    selection_fits, selection_view, truth_possible,
};
use crate::rules::{Rule, RuleView};
use crate::weights::{WeightedChoice, index_weights, weights_accepted, weighted_index, sample_index};

verus! {

/// How many times the heap checks a drawn wallpaper before it hands out the
/// next draw unchecked.
pub const MAX_FILE_CHECKS: u32 = 24;

/// The next thing the caller does to obtain a wallpaper.
#[derive(Debug)]
pub enum NextStep {
    /// Check that the file at `path` (the wallpaper at `index`) exists and
    /// report back; `failures` files were missing before it.
    Check { index: usize, path: String, failures: u32 },
    /// Show the wallpaper at this path.
    Deliver(String),
    /// There is no wallpaper to show.
    Empty,
}

/// The abstract state of a heap.
pub struct HeapView {
    pub wallpapers: Seq<WallpaperView>,
    pub weights: Option<Seq<int>>,
    pub rules: Seq<RuleView>,
    pub database_tags: Seq<Seq<char>>,
    pub database_rules: Seq<RuleView>,
    pub database_walls: Seq<WallpaperView>,
}

/// The heap after reloading with the rules that `truth` marks active: where
/// the set of active rules changed (and weighing overflows no weight), the
/// heap takes the selected wallpapers, a distribution over their weights
/// where `WeightedIndex` accepts them, and the active rules; else it stays as
/// it is.
pub open spec fn reloaded(h: HeapView, truth: Seq<bool>) -> HeapView {
    if !selection_fits(h.database_rules, h.database_walls, truth, h.rules) {
        h
    } else {
        match selection(h.database_rules, h.database_walls, truth, h.rules) {
            None => h,
            Some((walls, weights, rules)) => HeapView {
                wallpapers: walls,
                weights: if weights_accepted(weights) {
                    Some(weights)
                } else {
                    None
                },
                rules,
                database_tags: h.database_tags,
                database_rules: h.database_rules,
                database_walls: h.database_walls,
            },
        }
    }
}

/// The wallpapers of a database, weighed by the rules that hold.
pub struct Heap {
    wallpapers: Vec<Wallpaper>,
    distribution: Option<WeightedChoice>,
    database: Database,
    current_rules: Vec<Rule>,
}

impl View for Heap {
    type V = HeapView;

    closed spec fn view(&self) -> HeapView {
        HeapView {
            wallpapers: walls_view(self.wallpapers@),
            weights: match self.distribution {
                Some(d) => Some(weights_view(index_weights(d))),
                None => None,
            },
            rules: rules_view(self.current_rules@),
            database_tags: tags_view(self.database.tags@),
            database_rules: rules_view(self.database.rules@),
            database_walls: walls_view(self.database.wallpapers@),
        }
    }
}

impl Heap {
    /// The distribution, where there is one, covers the wallpapers.
    pub open spec fn wf(&self) -> bool {
        self@.weights matches Some(w) ==> w.len() == self@.wallpapers.len()
    }

    /// An empty heap over an empty database.
    pub fn new() -> (h: Heap)
        ensures
            h.wf(),
            h@.wallpapers.len() == 0,
            h@.weights is None,
            h@.rules.len() == 0,
            h@.database_tags.len() == 0,
            h@.database_rules.len() == 0,
            h@.database_walls.len() == 0,
    {
        Heap {
            wallpapers: Vec::new(),
            distribution: None,
            database: Database { tags: Vec::new(), wallpapers: Vec::new(), rules: Vec::new() },
            current_rules: Vec::new(),
        }
    }

    /// A heap over the database, loaded with the rules that hold now.
    pub fn generate(database: Database) -> (h: Heap)
        ensures
            h.wf(),
            exists|truth: Seq<bool>|
                truth_possible(rules_view(database.rules@), truth) && h@ == reloaded(
                    HeapView {
                        wallpapers: Seq::empty(),
                        weights: None,
                        rules: Seq::empty(),
                        database_tags: tags_view(database.tags@),
                        database_rules: rules_view(database.rules@),
                        database_walls: walls_view(database.wallpapers@),
                    },
                    truth,
                ),
    {
        let mut out = Heap {
            wallpapers: Vec::new(),
            distribution: None,
            database,
            current_rules: Vec::new(),
        };
        assert(out@.wallpapers =~= Seq::<WallpaperView>::empty());
        assert(out@.rules =~= Seq::<RuleView>::empty());
        out.reload();
        out
    }

    /// The wallpapers in the heap.
    pub fn wallpapers(&self) -> (r: &Vec<Wallpaper>)
        ensures
            walls_view(r@) == self@.wallpapers,
    {
        &self.wallpapers
    }

    /// The rules that were active at the last reload that changed the heap.
    pub fn current_rules(&self) -> (r: &Vec<Rule>)
        ensures
            rules_view(r@) == self@.rules,
    {
        &self.current_rules
    }

    /// The database the heap draws from.
    pub fn database(&self) -> (r: &Database)
        ensures
            tags_view(r.tags@) == self@.database_tags,
            rules_view(r.rules@) == self@.database_rules,
            walls_view(r.wallpapers@) == self@.database_walls,
    {
        &self.database
    }

    /// Whether the heap has a distribution to draw from.
    pub fn has_distribution(&self) -> (r: bool)
        ensures
            r == self@.weights is Some,
    {
        self.distribution.is_some()
    }

    /// Reloads with the rules that `truth` marks active.
    pub fn reload_with(&mut self, truth: &Vec<bool>)
        requires
            old(self).wf(),
            truth.len() == old(self)@.database_rules.len(),
        ensures
            final(self).wf(),
            final(self)@ == reloaded(old(self)@, truth@),
    {
        match self.database.select_checked(truth, &self.current_rules) {
            Ok(Some((wallpapers, distr, current_rules))) => {
                let distribution = weighted_index(&distr);
                assert(selection_view(Some((wallpapers, distr, current_rules))) == selection(
                    old(self)@.database_rules,
                    old(self)@.database_walls,
                    truth@,
                    old(self)@.rules,
                ));
                assert(weights_view(distr@) =~= distr@.map_values(|w: u32| w as int));
                proof {
                    let active = crate::tables::active_rules(old(self)@.database_rules, truth@);
                    crate::tables::lemma_tag_fold_wf(
                        crate::tables::tag_events(active, crate::tables::min_level(active)),
                    );
                    crate::tables::lemma_wall_fold_wf(
                        crate::tables::tag_table(active),
                        crate::tables::wall_events(old(self)@.database_walls),
                    );
                    assert(walls_view(wallpapers@).len() == wallpapers@.len());
                    assert(weights_view(distr@).len() == distr@.len());
                    if distribution is Some {
                        assert(weights_view(index_weights(distribution->0)) == weights_view(
                            distr@,
                        ));
                    }
                }
                self.wallpapers = wallpapers;
                self.current_rules = current_rules;
                self.distribution = distribution;
            },
            Ok(None) => {},
            Err(_) => {},
        }
    }

    /// Reloads with the rules that hold now on the local clock.
    pub fn reload(&mut self)
        requires
            old(self).wf(),
        ensures
            final(self).wf(),
            exists|truth: Seq<bool>|
                truth_possible(old(self)@.database_rules, truth) && final(self)@ == reloaded(
                    old(self)@,
                    truth,
                ),
    {
        let truth = self.database.evaluate_rules();
        self.reload_with(&truth);
    }

    /// Reloads before each draw: the same as `reload`.
    pub fn reload_static(&mut self)
        requires
            old(self).wf(),
        ensures
            final(self).wf(),
            exists|truth: Seq<bool>|
                truth_possible(old(self)@.database_rules, truth) && final(self)@ == reloaded(
                    old(self)@,
                    truth,
                ),
    {
        self.reload();
    }

    /// Draws a wallpaper; where there is no distribution, reloads first and
    /// hands out the first wallpaper. A heap that still has no wallpaper after
    /// the reload answers `Empty`: there is nothing to show, and a caller that
    /// must show a wallpaper cannot go on.
    pub fn begin_next(&mut self, rng: &mut SmallRng) -> (step: NextStep)
        requires
            old(self).wf(),
        ensures
            final(self).wf(),
            old(self)@.weights matches Some(w) ==> {
                &&& final(self)@ == old(self)@
                &&& (step matches NextStep::Check { index, path, failures } && failures == 0
                    && index < w.len() && w[index as int] > 0 && path@
                    == old(self)@.wallpapers[index as int].path)
            },
            old(self)@.weights is None ==> {
                &&& exists|truth: Seq<bool>|
                    truth_possible(old(self)@.database_rules, truth) && final(self)@ == reloaded(
                        old(self)@,
                        truth,
                    )
                &&& final(self)@.wallpapers.len() == 0 ==> step is Empty
                &&& final(self)@.wallpapers.len() > 0 ==> (step matches NextStep::Deliver(path)
                    && path@ == final(self)@.wallpapers[0].path)
            },
    {
        match &self.distribution {
            Some(dist) => {
                let index = sample_index(dist, rng);
                NextStep::Check { index, path: self.wallpapers[index].path().clone(), failures: 0 }
            },
            None => {
                self.reload();
                if self.wallpapers.len() == 0 {
                    NextStep::Empty
                } else {
                    NextStep::Deliver(self.wallpapers[0].path().clone())
                }
            },
        }
    }

    /// Takes the answer to a check: an existing file is delivered; a missing
    /// one is replaced by a new draw, which is checked in turn unless it is
    /// the last one allowed.
    pub fn after_check(&self, rng: &mut SmallRng, index: usize, failures: u32, exists: bool) -> (step:
        NextStep)
        requires
            self.wf(),
            self@.weights is Some,
            index < self@.wallpapers.len(),
            failures < MAX_FILE_CHECKS,
        ensures
            exists ==> (step matches NextStep::Deliver(path) && path@
                == self@.wallpapers[index as int].path),
            !exists ==> exists|next: int|
                {
                    &&& 0 <= next < self@.wallpapers.len()
                    &&& self@.weights->0[next] > 0
                    &&& if failures + 1 < MAX_FILE_CHECKS {
                        (step matches NextStep::Check { index: i, path, failures: f } && i == next
                            && f == failures + 1 && path@ == self@.wallpapers[next].path)
                    } else {
                        (step matches NextStep::Deliver(path) && path@
                            == self@.wallpapers[next].path)
                    }
                },
    {
        if exists {
            return NextStep::Deliver(self.wallpapers[index].path().clone());
        }
        match &self.distribution {
            Some(dist) => {
                let next = sample_index(dist, rng);
                let path = self.wallpapers[next].path().clone();
                assert(self@.weights->0[next as int] > 0);
                assert(path@ == self@.wallpapers[next as int].path);
                if failures + 1 < MAX_FILE_CHECKS {
                    NextStep::Check { index: next, path, failures: failures + 1 }
                } else {
                    NextStep::Deliver(path)
                }
            },
            None => NextStep::Empty,
        }
    }
}

impl Default for Heap {
    fn default() -> (h: Heap)
        ensures
            h.wf(),
            h@.wallpapers.len() == 0,
            h@.weights is None,
            h@.rules.len() == 0,
            h@.database_tags.len() == 0,
            h@.database_rules.len() == 0,
            h@.database_walls.len() == 0,
    {
        Heap::new()
    }
}

/// The next thing a simple loader does with a drawn picture.
#[derive(Debug)]
pub enum SimpleStep {
    /// Show the picture at this path.
    Deliver(String),
    /// The file is gone: scan the directories again, then draw anew.
    Rescan,
}

/// The pictures found in a list of directories, drawn by weight.
pub struct Simple {
    wallpaper_directories: Vec<String>,
    wallpapers: Vec<String>,
    distribution: WeightedChoice,
}

impl Simple {
    pub closed spec fn spec_directories(&self) -> Seq<Seq<char>> {
        self.wallpaper_directories@.map_values(|d: String| d@)
    }

    pub closed spec fn spec_wallpapers(&self) -> Seq<Seq<char>> {
        self.wallpapers@.map_values(|p: String| p@)
    }

    pub closed spec fn spec_weights(&self) -> Seq<int> {
        weights_view(index_weights(self.distribution))
    }

    /// The distribution covers the pictures.
    pub open spec fn wf(&self) -> bool {
        self.spec_weights().len() == self.spec_wallpapers().len()
    }

    /// A loader over the pictures found in `path`, each with its weight.
    pub fn from_directory(path: String, pictures: Vec<String>, weights: Vec<u32>) -> (s: Simple)
        requires
            pictures.len() == weights.len(),
            weights_accepted(weights_view(weights@)),
        ensures
            s.wf(),
            s.spec_directories() == seq![path@],
            s.spec_wallpapers() == pictures@.map_values(|p: String| p@),
            s.spec_weights() == weights_view(weights@),
    {
        assert(weights_view(weights@) =~= weights@.map_values(|w: u32| w as int));
        let distribution = match weighted_index(&weights) {
            Some(d) => d,
            None => vstd::pervasive::unreached(),
        };
        let mut dirs: Vec<String> = Vec::new();
        dirs.push(path);
        let s = Simple { wallpaper_directories: dirs, wallpapers: pictures, distribution };
        assert(s.spec_directories() =~= seq![path@]);
        s
    }

    /// Replaces the pictures and their weights with a fresh scan.
    pub fn reload_with(&mut self, pictures: Vec<String>, weights: Vec<u32>)
        requires
            pictures.len() == weights.len(),
            weights_accepted(weights_view(weights@)),
        ensures
            final(self).wf(),
            final(self).spec_directories() == old(self).spec_directories(),
            final(self).spec_wallpapers() == pictures@.map_values(|p: String| p@),
            final(self).spec_weights() == weights_view(weights@),
    {
        assert(weights_view(weights@) =~= weights@.map_values(|w: u32| w as int));
        match weighted_index(&weights) {
            Some(d) => {
                self.wallpapers = pictures;
                self.distribution = d;
            },
            None => {
                assert(false);
            },
        }
    }

    /// The directories that a reload scans.
    pub fn directories(&self) -> (r: &Vec<String>)
        ensures
            r@.map_values(|d: String| d@) == self.spec_directories(),
    {
        &self.wallpaper_directories
    }

    /// What to do with a drawn picture once its file was looked for: show it
    /// where the file exists; else scan the directories again and draw anew.
    pub fn after_check(path: String, exists: bool) -> (step: SimpleStep)
        ensures
            exists ==> (step matches SimpleStep::Deliver(p) && p == path),
            !exists ==> step is Rescan,
    {
        if exists {
            SimpleStep::Deliver(path)
        } else {
            SimpleStep::Rescan
        }
    }

    /// Draws a picture.
    pub fn pick(&self, rng: &mut SmallRng) -> (path: String)
        requires
            self.wf(),
        ensures
            exists|i: int|
                0 <= i < self.spec_wallpapers().len() && self.spec_weights()[i] > 0 && path@
                    == self.spec_wallpapers()[i],
    {
        let i = sample_index(&self.distribution, rng);
        let path = self.wallpapers[i].clone();
        assert(self.spec_wallpapers()[i as int] == path@);
        path
    }
}

} // verus!
