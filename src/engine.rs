//! The engine: builds a plan of moves from a directory listing and the
//! rule set.

use vstd::prelude::*;
use crate::actions::{count_false, count_true, lemma_outcomes_split, Actions, PathPair};
use crate::configurations::{opt_view, resolve, Configurations, RuleView};
use crate::paths::{join, joined};

verus! {

/// Name of the rules file under the home directory.
pub const CONFIG_FILE_NAME: &'static str = ".fsorg.json";

/// Rules file used when no home directory is known.
pub const FAIL_CONFIG_FILE: &'static str = "fsorg.json";

/// One direct entry of the source directory, as a scan sees it.
pub enum Entry {
    /// A regular file, with its name.
    File(String),
    /// A regular file whose name is not valid text.
    NonTextName,
    /// Anything else: a directory, a link, an entry that could not be read.
    Other,
}

/// The moves a scan plans: for each regular file that a rule claims, in
/// listing order, the file under `source` moved to the rule's destination.
pub open spec fn planned(
    entries: Seq<Entry>,
    rules: Seq<RuleView>,
    root: Seq<char>,
    source: Seq<char>,
) -> Seq<PathPair>
    decreases entries.len(),
{
    if entries.len() == 0 {
        seq![]
    } else {
        let rest = planned(entries.drop_last(), rules, root, source);
        match entries.last() {
            Entry::File(n) => match resolve(rules, root, n@) {
                Some(d) => rest.push((joined(source, n@), joined(d, n@))),
                None => rest,
            },
            _ => rest,
        }
    }
}

/// How many entries are regular files.
pub open spec fn scanned_count(entries: Seq<Entry>) -> nat
    decreases entries.len(),
{
    if entries.len() == 0 {
        0
    } else {
        scanned_count(entries.drop_last()) + match entries.last() {
            Entry::Other => 0nat,
            _ => 1nat,
        }
    }
}

/// How many regular files no rule claims.
pub open spec fn skipped_count(entries: Seq<Entry>, rules: Seq<RuleView>, root: Seq<char>) -> nat
    decreases entries.len(),
{
    if entries.len() == 0 {
        0
    } else {
        skipped_count(entries.drop_last(), rules, root) + match entries.last() {
            Entry::File(n) => if resolve(rules, root, n@) is None {
                1nat
            } else {
                0nat
            },
            _ => 0nat,
        }
    }
}

/// How many regular files have a name that is not valid text.
pub open spec fn non_text_count(entries: Seq<Entry>) -> nat
    decreases entries.len(),
{
    if entries.len() == 0 {
        0
    } else {
        non_text_count(entries.drop_last()) + match entries.last() {
            Entry::NonTextName => 1nat,
            _ => 0nat,
        }
    }
}

/// A scan puts each regular file in exactly one place: the plan, the
/// skipped files or the errors.
pub proof fn lemma_scan_accounting(
    entries: Seq<Entry>,
    rules: Seq<RuleView>,
    root: Seq<char>,
    source: Seq<char>,
)
    ensures
        planned(entries, rules, root, source).len() + skipped_count(entries, rules, root)
            + non_text_count(entries) == scanned_count(entries),
        scanned_count(entries) <= entries.len(),
    decreases entries.len(),
{
    if entries.len() > 0 {
        lemma_scan_accounting(entries.drop_last(), rules, root, source);
    }
}

/// After a scan and the execution of the plan it built, whatever each move's
/// outcome, every file scanned was moved, skipped or counted as an error:
/// scanned == moved + skipped + errors.
pub proof fn lemma_run_accounting(
    entries: Seq<Entry>,
    rules: Seq<RuleView>,
    root: Seq<char>,
    source: Seq<char>,
    outcomes: Seq<bool>,
)
    requires
        outcomes.len() == planned(entries, rules, root, source).len(),
    ensures
        scanned_count(entries) == count_true(outcomes) + skipped_count(entries, rules, root) + (
        non_text_count(entries) + count_false(outcomes)),
{
    lemma_scan_accounting(entries, rules, root, source);
    lemma_outcomes_split(outcomes);
}

/// The rules file under `home`, if a home directory is known.
pub fn get_config_file_path(home: Option<String>) -> (r: Option<String>)
    ensures
        opt_view(r) == match home {
            Some(h) => Some(joined(h@, CONFIG_FILE_NAME@)),
            None => None::<Seq<char>>,
        },
{
    match home {
        Some(h) => Some(join(h.as_str(), CONFIG_FILE_NAME)),
        None => None,
    }
}

/// The file organiser: the configuration of a run and where its rules are
/// kept.
pub struct Engine {
    configurations: Configurations,
    config_file: String,
}

impl Engine {
    pub closed spec fn configurations(&self) -> Configurations {
        self.configurations
    }

    pub closed spec fn config_file(&self) -> Seq<char> {
        self.config_file@
    }

    pub open spec fn wf(&self) -> bool {
        self.configurations().wf()
    }

    /// An engine with no rules, both directories the current one, and its
    /// rules file under `home` (or in the current directory when `home` is
    /// unknown).
    pub fn new(home: Option<String>) -> (r: Self)
        ensures
            r.wf(),
            r.configurations().rules() == Seq::<RuleView>::empty(),
            r.configurations().working_directory() == "."@,
            r.configurations().destination_directory() == "."@,
            r.config_file() == match home {
                Some(h) => joined(h@, CONFIG_FILE_NAME@),
                None => FAIL_CONFIG_FILE@,
            },
    {
        let config_file = match get_config_file_path(home) {
            Some(path) => path,
            None => String::from_str(FAIL_CONFIG_FILE),
        };
        Engine { configurations: Configurations::new(), config_file }
    }

    /// The configuration, for reading.
    pub fn get_configurations(&self) -> (r: &Configurations)
        ensures
            *r == self.configurations(),
    {
        &self.configurations
    }

    pub fn get_config_file(&self) -> (r: &String)
        ensures
            r@ == self.config_file(),
    {
        &self.config_file
    }

    /// Changes the directory whose files are organised.
    pub fn change_working_directory(&mut self, directory: String)
        ensures
            final(self).configurations().working_directory() == directory@,
            final(self).configurations().destination_directory() == old(
                self,
            ).configurations().destination_directory(),
            final(self).configurations().rules() == old(self).configurations().rules(),
            final(self).config_file() == old(self).config_file(),
            final(self).wf() == old(self).wf(),
    {
        self.configurations.set_working_directory(directory);
    }

    /// Changes the directory under which organised files are placed.
    pub fn change_destination_directory(&mut self, directory: String)
        ensures
            final(self).configurations().destination_directory() == directory@,
            final(self).configurations().working_directory() == old(
                self,
            ).configurations().working_directory(),
            final(self).configurations().rules() == old(self).configurations().rules(),
            final(self).config_file() == old(self).config_file(),
            final(self).wf() == old(self).wf(),
    {
        self.configurations.set_destination_directory(directory);
    }

    /// Changes the file the rules are loaded from and stored to.
    pub fn change_configurations(&mut self, config_file: String)
        ensures
            final(self).config_file() == config_file@,
            final(self).configurations() == old(self).configurations(),
    {
        self.config_file = config_file;
    }

    /// Takes the rules read from the rules file, or the default rules when
    /// none could be read. Returns whether the defaults were taken (and so
    /// should be stored).
    pub fn load_configurations(&mut self, loaded: Option<Vec<(String, String)>>) -> (seeded: bool)
        ensures
            final(self).wf(),
            seeded == loaded.is_none(),
            final(self).configurations().rules() == crate::configurations::rules_from(
                match loaded {
                    Some(v) => crate::configurations::rules_view(v@),
                    None => crate::configurations::default_rules(),
                },
            ),
            final(self).configurations().configuration_file() == old(self).config_file(),
            final(self).configurations().working_directory() == old(
                self,
            ).configurations().working_directory(),
            final(self).configurations().destination_directory() == old(
                self,
            ).configurations().destination_directory(),
            final(self).config_file() == old(self).config_file(),
    {
        let file = self.config_file.clone();
        self.configurations.load_configurations(file, loaded)
    }

    /// Every rule, valid or not, in order.
    pub fn retrieve_rules(&self) -> (r: Vec<(String, String)>)
        ensures
            crate::configurations::rules_view(r@) == self.configurations().rules(),
    {
        self.configurations.view_rules()
    }

    /// See `Configurations::add_dynamic_rule`.
    pub fn add_rule(&mut self, pattern: &str, destination: &str) -> (changed: bool)
        requires
            old(self).wf(),
        ensures
            final(self).wf(),
            changed == crate::pattern::pattern_compiles(pattern@),
            final(self).configurations().rules() == if changed {
                crate::configurations::upsert(old(self).configurations().rules(), pattern@, destination@)
            } else {
                old(self).configurations().rules()
            },
            final(self).configurations().destination_directory() == old(
                self,
            ).configurations().destination_directory(),
            final(self).config_file() == old(self).config_file(),
    {
        self.configurations.add_dynamic_rule(pattern, destination)
    }

    /// See `Configurations::delete_dynamic_rule`.
    pub fn delete_rule(&mut self, pattern: &str) -> (changed: bool)
        requires
            old(self).wf(),
        ensures
            final(self).wf(),
            changed == crate::pattern::pattern_compiles(pattern@),
            final(self).configurations().rules() == if changed {
                crate::configurations::without_pattern(old(self).configurations().rules(), pattern@)
            } else {
                old(self).configurations().rules()
            },
            final(self).configurations().destination_directory() == old(
                self,
            ).configurations().destination_directory(),
            final(self).config_file() == old(self).config_file(),
    {
        self.configurations.delete_dynamic_rule(pattern)
    }

    /// Builds the plan for a listing of the working directory: `listing` is
    /// its absolute path and its direct entries, or none when the directory
    /// could not be resolved or listed, which gives an empty plan with every
    /// count at zero.
    pub fn generate_actions(&self, listing: Option<(String, Vec<Entry>)>) -> (r: Actions)
        requires
            self.wf(),
            listing matches Some(l) ==> l.1@.len() <= u32::MAX,
        ensures
            r.moved() == 0,
            match listing {
                Some(l) => {
                    let rules = self.configurations().rules();
                    let root = self.configurations().destination_directory();
                    &&& r.plan() == planned(l.1@, rules, root, l.0@)
                    &&& r.scanned() == scanned_count(l.1@)
                    &&& r.skipped() == skipped_count(l.1@, rules, root)
                    &&& r.errors() == non_text_count(l.1@)
                },
                None => {
                    &&& r.plan() == Seq::<PathPair>::empty()
                    &&& r.scanned() == 0
                    &&& r.skipped() == 0
                    &&& r.errors() == 0
                },
            },
    {
        let mut actions = Actions::new();
        let (source, entries) = match listing {
            Some(l) => l,
            None => return actions,
        };
        let ghost rules = self.configurations().rules();
        let ghost root = self.configurations().destination_directory();
        let ghost e = entries@;
        proof {
            assert(e.take(0) =~= Seq::<Entry>::empty());
        }
        let mut i: usize = 0;
        while i < entries.len()
            invariant
                i <= e.len(),
                e == entries@,
                e.len() <= u32::MAX,
                self.wf(),
                rules == self.configurations().rules(),
                root == self.configurations().destination_directory(),
                actions.moved() == 0,
                actions.plan() == planned(e.take(i as int), rules, root, source@),
                actions.scanned() == scanned_count(e.take(i as int)),
                actions.skipped() == skipped_count(e.take(i as int), rules, root),
                actions.errors() == non_text_count(e.take(i as int)),
            decreases e.len() - i,
        {
            proof {
                assert(e.take(i + 1).drop_last() =~= e.take(i as int));
                assert(e.take(i + 1).last() == e[i as int]);
                lemma_scan_accounting(e.take(i as int), rules, root, source@);
            }
            match &entries[i] {
                Entry::File(name) => {
                    actions.count_scanned();
                    match self.configurations.retrieve_destination_directory(name.as_str()) {
                        Some(directory) => {
                            let from = join(source.as_str(), name.as_str());
                            let to = join(directory.as_str(), name.as_str());
                            actions.add_action(from, to);
                        },
                        None => {
                            actions.count_skipped();
                        },
                    }
                },
                Entry::NonTextName => {
                    actions.count_scanned();
                    actions.count_error();
                },
                Entry::Other => {},
            }
            i += 1;
        }
        proof {
            assert(e.take(i as int) =~= e);
        }
        actions
    }
}

} // verus!
