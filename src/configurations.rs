//! The ordered rule set and the directories a run works with.

use vstd::prelude::*;
use crate::paths::{join, joined};
use crate::pattern::{pattern_compiles, pattern_is_match, Pattern};

verus! {

/// A rule as (pattern, destination).
pub type RuleView = (Seq<char>, Seq<char>);

/// The rules of a list of string pairs.
pub open spec fn rules_view(v: Seq<(String, String)>) -> Seq<RuleView> {
    v.map_values(|r: (String, String)| (r.0@, r.1@))
}

/// The rules of a list of compiled patterns and destinations.
pub open spec fn compiled_view(v: Seq<(Pattern, String)>) -> Seq<RuleView> {
    v.map_values(|r: (Pattern, String)| (r.0@, r.1@))
}

/// The rules whose pattern compiles, in their order.
pub open spec fn valid_only(rules: Seq<RuleView>) -> Seq<RuleView>
    decreases rules.len(),
{
    if rules.len() == 0 {
        seq![]
    } else {
        let rest = valid_only(rules.drop_last());
        if pattern_compiles(rules.last().0) {
            rest.push(rules.last())
        } else {
            rest
        }
    }
}

/// The destination of the first rule whose pattern matches `name`.
pub open spec fn first_match(rules: Seq<RuleView>, name: Seq<char>) -> Option<Seq<char>>
    decreases rules.len(),
{
    if rules.len() == 0 {
        None
    } else if pattern_is_match(rules[0].0, name) {
        Some(rules[0].1)
    } else {
        first_match(rules.drop_first(), name)
    }
}

/// No two rules share a pattern.
pub open spec fn unique_patterns(rules: Seq<RuleView>) -> bool {
    forall|i: int, j: int| 0 <= i < j < rules.len() ==> rules[i].0 != rules[j].0
}

pub open spec fn has_pattern(rules: Seq<RuleView>, p: Seq<char>) -> bool {
    exists|i: int| 0 <= i < rules.len() && rules[i].0 == p
}

/// The rules after setting the destination of pattern `p` to `d`: the rule
/// with that pattern is updated in place, or a new one goes at the end.
pub open spec fn upsert(rules: Seq<RuleView>, p: Seq<char>, d: Seq<char>) -> Seq<RuleView> {
    if has_pattern(rules, p) {
        rules.update(choose|i: int| 0 <= i < rules.len() && rules[i].0 == p, (p, d))
    } else {
        rules.push((p, d))
    }
}

/// The rules given by a list of (pattern, destination) entries, a later
/// entry for a pattern replacing an earlier one.
pub open spec fn rules_from(entries: Seq<RuleView>) -> Seq<RuleView>
    decreases entries.len(),
{
    if entries.len() == 0 {
        seq![]
    } else {
        let last = entries.last();
        upsert(rules_from(entries.drop_last()), last.0, last.1)
    }
}

/// The rules without the one whose pattern is `p`.
pub open spec fn without_pattern(rules: Seq<RuleView>, p: Seq<char>) -> Seq<RuleView>
    decreases rules.len(),
{
    if rules.len() == 0 {
        seq![]
    } else {
        let rest = without_pattern(rules.drop_last(), p);
        if rules.last().0 == p {
            rest
        } else {
            rest.push(rules.last())
        }
    }
}

/// Where a file named `name` goes under `root`, if a rule claims it.
pub open spec fn resolve(rules: Seq<RuleView>, root: Seq<char>, name: Seq<char>) -> Option<Seq<char>> {
    match first_match(valid_only(rules), name) {
        Some(d) => Some(joined(root, d)),
        None => None,
    }
}

pub open spec fn opt_view(o: Option<String>) -> Option<Seq<char>> {
    match o {
        Some(s) => Some(s@),
        None => None,
    }
}

/// The rules a fresh configuration starts with.
pub open spec fn default_rules() -> Seq<RuleView> {
    seq![
        ("(?i)^.*\\.(jpg|jpeg|png|gif|bmp|webp|tiff?)$"@, "Images"@),
        ("(?i)^.*\\.(pdf|docx?|xlsx?|pptx?|odt|ods|txt|rtf|csv|md)$"@, "Documents"@),
        ("(?i)^.*\\.(mp4|mkv|flv|avi|mov)$"@, "Videos"@),
        ("(?i)^.*\\.(mp3|wav|ogg|flac)$"@, "Music"@),
        ("(?i)^.*\\.(zip|rar|7z|tar\\.gz|tar\\.bz2)$"@, "Archives"@),
        ("(?i)^.*\\.(exe|msi|deb|rpm|sh|bat)$"@, "Installers"@),
        ("(?i)^.*\\.(rs|cpp|c|h|hpp|py|java|go|rb|cs|swift)$"@, "Code"@),
    ]
}

/// First match wins: when rule `j` matches `name` and no earlier rule does,
/// `name` is routed to rule `j`'s destination, whatever later rules match.
pub proof fn lemma_first_match_precedence(rules: Seq<RuleView>, name: Seq<char>, j: int)
    requires
        0 <= j < rules.len(),
        pattern_is_match(rules[j].0, name),
        forall|k: int| 0 <= k < j ==> !pattern_is_match(#[trigger] rules[k].0, name),
    ensures
        first_match(rules, name) == Some(rules[j].1),
    decreases j,
{
    if j > 0 {
        let rest = rules.drop_first();
        assert forall|k: int| 0 <= k < j - 1 implies !pattern_is_match(#[trigger] rest[k].0, name) by {
            assert(rest[k] == rules[k + 1]);
        }
        lemma_first_match_precedence(rest, name, j - 1);
    }
}

/// A name that no rule's pattern matches is routed nowhere.
pub proof fn lemma_no_match(rules: Seq<RuleView>, name: Seq<char>)
    requires
        forall|k: int| 0 <= k < rules.len() ==> !pattern_is_match(#[trigger] rules[k].0, name),
    ensures
        first_match(rules, name) == None::<Seq<char>>,
    decreases rules.len(),
{
    if rules.len() > 0 {
        let rest = rules.drop_first();
        assert forall|k: int| 0 <= k < rest.len() implies !pattern_is_match(#[trigger] rest[k].0, name) by {
            assert(rest[k] == rules[k + 1]);
        }
        lemma_no_match(rest, name);
    }
}

proof fn lemma_upsert_unique(rules: Seq<RuleView>, p: Seq<char>, d: Seq<char>)
    requires
        unique_patterns(rules),
    ensures
        unique_patterns(upsert(rules, p, d)),
        has_pattern(upsert(rules, p, d), p),
{
    if has_pattern(rules, p) {
        let k = choose|i: int| 0 <= i < rules.len() && rules[i].0 == p;
        let r = upsert(rules, p, d);
        assert forall|i: int, j: int| 0 <= i < j < r.len() implies r[i].0 != r[j].0 by {
            assert(r[i].0 == rules[i].0);
            assert(r[j].0 == rules[j].0);
        }
        assert(r[k].0 == p);
    } else {
        assert(upsert(rules, p, d)[rules.len() as int].0 == p);
    }
}

proof fn lemma_without_pattern_sub(rules: Seq<RuleView>, p: Seq<char>)
    ensures
        forall|j: int|
            0 <= j < without_pattern(rules, p).len() ==> exists|i: int|
                0 <= i < rules.len() && #[trigger] without_pattern(rules, p)[j] == rules[i],
        forall|j: int|
            0 <= j < without_pattern(rules, p).len() ==> (#[trigger] without_pattern(rules, p)[j]).0 != p,
    decreases rules.len(),
{
    if rules.len() > 0 {
        lemma_without_pattern_sub(rules.drop_last(), p);
        let rest = without_pattern(rules.drop_last(), p);
        assert forall|j: int| 0 <= j < rest.len() implies exists|i: int|
            0 <= i < rules.len() && #[trigger] rest[j] == rules[i] by {
            let i = choose|i: int| 0 <= i < rules.drop_last().len() && rest[j] == rules.drop_last()[i];
            assert(rules[i] == rest[j]);
        }
        assert(rules[rules.len() - 1] == rules.last());
    }
}

proof fn lemma_without_unique(rules: Seq<RuleView>, p: Seq<char>)
    requires
        unique_patterns(rules),
    ensures
        unique_patterns(without_pattern(rules, p)),
    decreases rules.len(),
{
    if rules.len() > 0 {
        let init = rules.drop_last();
        lemma_without_unique(init, p);
        lemma_without_pattern_sub(init, p);
        let rest = without_pattern(init, p);
        let w = without_pattern(rules, p);
        if rules.last().0 != p {
            assert forall|i: int, j: int| 0 <= i < j < w.len() implies w[i].0 != w[j].0 by {
                if j == rest.len() {
                    let k = choose|k: int| 0 <= k < init.len() && rest[i] == init[k];
                    assert(rules[k] == init[k]);
                    assert(rules[rules.len() - 1] == rules.last());
                } else {
                    assert(w[i] == rest[i] && w[j] == rest[j]);
                }
            }
        }
    }
}

proof fn lemma_rules_view_push(v: Seq<(String, String)>, x: (String, String))
    ensures
        rules_view(v.push(x)) == rules_view(v).push((x.0@, x.1@)),
{
    assert(rules_view(v.push(x)) =~= rules_view(v).push((x.0@, x.1@)));
}

proof fn lemma_rules_view_take(v: Seq<(String, String)>, i: int)
    requires
        0 <= i < v.len(),
    ensures
        rules_view(v.take(i + 1)) == rules_view(v.take(i)).push((v[i].0@, v[i].1@)),
        rules_view(v)[i] == (v[i].0@, v[i].1@),
{
    assert(v.take(i + 1) =~= v.take(i).push(v[i]));
    lemma_rules_view_push(v.take(i), v[i]);
}

/// The rule set, the directories of a run and where the rules are kept.
pub struct Configurations {
    rules: Vec<(String, String)>,
    compiled_rules: Vec<(Pattern, String)>,
    working_directory: String,
    destination_directory: String,
    configuration_file: String,
    version: String,
}

impl Configurations {
    /// All rules, valid or not, in order.
    pub closed spec fn rules(&self) -> Seq<RuleView> {
        rules_view(self.rules@)
    }

    pub closed spec fn working_directory(&self) -> Seq<char> {
        self.working_directory@
    }

    pub closed spec fn destination_directory(&self) -> Seq<char> {
        self.destination_directory@
    }

    pub closed spec fn configuration_file(&self) -> Seq<char> {
        self.configuration_file@
    }

    /// The format version written beside the rules.
    pub closed spec fn version(&self) -> Seq<char> {
        self.version@
    }

    /// The compiled rules are exactly the valid ones, and patterns are unique.
    pub closed spec fn wf(&self) -> bool {
        &&& compiled_view(self.compiled_rules@) == valid_only(rules_view(self.rules@))
        &&& unique_patterns(rules_view(self.rules@))
    }

    /// No rules; both directories are the current one.
    pub fn new() -> (r: Self)
        ensures
            r.wf(),
            r.rules() == Seq::<RuleView>::empty(),
            r.working_directory() == "."@,
            r.destination_directory() == "."@,
            r.configuration_file() == Seq::<char>::empty(),
            r.version() == "0.1.0"@,
    {
        let r = Configurations {
            rules: Vec::new(),
            compiled_rules: Vec::new(),
            working_directory: String::from_str("."),
            destination_directory: String::from_str("."),
            configuration_file: String::new(),
            version: String::from_str("0.1.0"),
        };
        assert(r.rules() =~= Seq::<RuleView>::empty());
        assert(compiled_view(r.compiled_rules@) =~= Seq::<RuleView>::empty());
        r
    }

    /// The rules a fresh configuration starts with, in order.
    pub fn seed_configurations() -> (r: Vec<(String, String)>)
        ensures
            rules_view(r@) == default_rules(),
    {
        let mut v: Vec<(String, String)> = Vec::new();
        v.push((String::from_str("(?i)^.*\\.(jpg|jpeg|png|gif|bmp|webp|tiff?)$"), String::from_str("Images")));
        v.push((String::from_str("(?i)^.*\\.(pdf|docx?|xlsx?|pptx?|odt|ods|txt|rtf|csv|md)$"), String::from_str("Documents")));
        v.push((String::from_str("(?i)^.*\\.(mp4|mkv|flv|avi|mov)$"), String::from_str("Videos")));
        v.push((String::from_str("(?i)^.*\\.(mp3|wav|ogg|flac)$"), String::from_str("Music")));
        v.push((String::from_str("(?i)^.*\\.(zip|rar|7z|tar\\.gz|tar\\.bz2)$"), String::from_str("Archives")));
        v.push((String::from_str("(?i)^.*\\.(exe|msi|deb|rpm|sh|bat)$"), String::from_str("Installers")));
        v.push((String::from_str("(?i)^.*\\.(rs|cpp|c|h|hpp|py|java|go|rb|cs|swift)$"), String::from_str("Code")));
        assert(rules_view(v@) =~= default_rules());
        v
    }

    /// A copy of every rule, valid or not, in order.
    pub fn view_rules(&self) -> (r: Vec<(String, String)>)
        ensures
            rules_view(r@) == self.rules(),
    {
        let mut out: Vec<(String, String)> = Vec::new();
        let mut i: usize = 0;
        while i < self.rules.len()
            invariant
                i <= self.rules@.len(),
                rules_view(out@) == rules_view(self.rules@.take(i as int)),
            decreases self.rules@.len() - i,
        {
            let p = self.rules[i].0.clone();
            let d = self.rules[i].1.clone();
            proof {
                lemma_rules_view_take(self.rules@, i as int);
                lemma_rules_view_push(out@, (p, d));
            }
            out.push((p, d));
            i += 1;
        }
        assert(self.rules@.take(i as int) =~= self.rules@);
        out
    }

    /// Rebuilds the compiled rules from the rules whose pattern compiles.
    fn compile_regexes(&mut self)
        ensures
            compiled_view(final(self).compiled_rules@) == valid_only(rules_view(old(self).rules@)),
            final(self).rules == old(self).rules,
            final(self).working_directory == old(self).working_directory,
            final(self).destination_directory == old(self).destination_directory,
            final(self).configuration_file == old(self).configuration_file,
    {
        let mut compiled: Vec<(Pattern, String)> = Vec::new();
        let mut i: usize = 0;
        while i < self.rules.len()
            invariant
                i <= self.rules@.len(),
                compiled_view(compiled@) == valid_only(rules_view(self.rules@.take(i as int))),
            decreases self.rules@.len() - i,
        {
            let ghost before = rules_view(self.rules@.take(i as int));
            let ghost after = rules_view(self.rules@.take(i + 1));
            assert(after.drop_last() =~= before);
            assert(after.last() == (self.rules@[i as int].0@, self.rules@[i as int].1@));
            match Pattern::compile(self.rules[i].0.as_str()) {
                Some(matcher) => {
                    let d = self.rules[i].1.clone();
                    compiled.push((matcher, d));
                    assert(compiled_view(compiled@) =~= valid_only(after));
                },
                None => {
                    assert(compiled_view(compiled@) =~= valid_only(after));
                },
            }
            i += 1;
        }
        assert(self.rules@.take(i as int) =~= self.rules@);
        self.compiled_rules = compiled;
    }

    /// Sets the destination of pattern `p`, in place if the pattern is
    /// already there, else as a new last rule.
    fn upsert_rule(&mut self, p: String, d: String)
        requires
            unique_patterns(rules_view(old(self).rules@)),
        ensures
            rules_view(final(self).rules@) == upsert(rules_view(old(self).rules@), p@, d@),
            unique_patterns(rules_view(final(self).rules@)),
            final(self).working_directory == old(self).working_directory,
            final(self).destination_directory == old(self).destination_directory,
            final(self).configuration_file == old(self).configuration_file,
    {
        let ghost rv = rules_view(self.rules@);
        proof {
            lemma_upsert_unique(rv, p@, d@);
        }
        let mut i: usize = 0;
        while i < self.rules.len()
            invariant
                i <= self.rules@.len(),
                rv == rules_view(self.rules@),
                rv == rules_view(old(self).rules@),
                unique_patterns(rv),
                forall|k: int| 0 <= k < i ==> rv[k].0 != p@,
                self.working_directory == old(self).working_directory,
                self.destination_directory == old(self).destination_directory,
                self.configuration_file == old(self).configuration_file,
            decreases self.rules@.len() - i,
        {
            if self.rules[i].0 == p {
                assert(rv[i as int].0 == p@);
                let ghost k = choose|k: int| 0 <= k < rv.len() && rv[k].0 == p@;
                assert(k == i);
                let ghost pv = p@;
                let ghost dv = d@;
                self.rules.set(i, (p, d));
                assert(rules_view(self.rules@) =~= rv.update(i as int, (pv, dv)));
                assert(upsert(rv, pv, dv) == rv.update(k, (pv, dv)));
                return;
            }
            i += 1;
        }
        self.rules.push((p, d));
        assert(rules_view(self.rules@) =~= upsert(rv, p@, d@));
    }

    /// Replaces the rules with those given by `entries`.
    fn set_rules(&mut self, entries: Vec<(String, String)>)
        ensures
            rules_view(final(self).rules@) == rules_from(rules_view(entries@)),
            unique_patterns(rules_view(final(self).rules@)),
            final(self).working_directory == old(self).working_directory,
            final(self).destination_directory == old(self).destination_directory,
            final(self).configuration_file == old(self).configuration_file,
    {
        self.rules = Vec::new();
        let ghost ev = rules_view(entries@);
        assert(rules_view(self.rules@) =~= rules_from(ev.take(0)));
        let mut i: usize = 0;
        while i < entries.len()
            invariant
                i <= entries@.len(),
                ev == rules_view(entries@),
                rules_view(self.rules@) == rules_from(ev.take(i as int)),
                unique_patterns(rules_view(self.rules@)),
                self.working_directory == old(self).working_directory,
                self.destination_directory == old(self).destination_directory,
                self.configuration_file == old(self).configuration_file,
            decreases entries@.len() - i,
        {
            assert(ev.take(i + 1).drop_last() =~= ev.take(i as int));
            let p = entries[i].0.clone();
            let d = entries[i].1.clone();
            self.upsert_rule(p, d);
            i += 1;
        }
        assert(ev.take(i as int) =~= ev);
    }

    /// Adds the rule (`pattern`, `destination`), replacing the destination
    /// of an existing rule with that pattern. A pattern that does not
    /// compile changes nothing. Returns whether the rules changed (and so
    /// should be stored again).
    pub fn add_dynamic_rule(&mut self, pattern: &str, destination: &str) -> (changed: bool)
        requires
            old(self).wf(),
        ensures
            final(self).wf(),
            changed == pattern_compiles(pattern@),
            final(self).rules() == if changed {
                upsert(old(self).rules(), pattern@, destination@)
            } else {
                old(self).rules()
            },
            final(self).working_directory() == old(self).working_directory(),
            final(self).destination_directory() == old(self).destination_directory(),
            final(self).configuration_file() == old(self).configuration_file(),
    {
        match Pattern::compile(pattern) {
            Some(_) => {
                self.upsert_rule(String::from_str(pattern), String::from_str(destination));
                self.compile_regexes();
                true
            },
            None => false,
        }
    }

    /// Removes the rule whose pattern is `pattern`. A pattern that does not
    /// compile changes nothing. Returns whether the rules were rewritten
    /// (and so should be stored again).
    pub fn delete_dynamic_rule(&mut self, pattern: &str) -> (changed: bool)
        requires
            old(self).wf(),
        ensures
            final(self).wf(),
            changed == pattern_compiles(pattern@),
            final(self).rules() == if changed {
                without_pattern(old(self).rules(), pattern@)
            } else {
                old(self).rules()
            },
            final(self).working_directory() == old(self).working_directory(),
            final(self).destination_directory() == old(self).destination_directory(),
            final(self).configuration_file() == old(self).configuration_file(),
    {
        if Pattern::compile(pattern).is_none() {
            return false;
        }
        let ghost rv = rules_view(self.rules@);
        let target = String::from_str(pattern);
        let mut kept: Vec<(String, String)> = Vec::new();
        let mut i: usize = 0;
        while i < self.rules.len()
            invariant
                i <= self.rules@.len(),
                rv == rules_view(self.rules@),
                target@ == pattern@,
                rules_view(kept@) == without_pattern(rv.take(i as int), pattern@),
            decreases self.rules@.len() - i,
        {
            assert(rv.take(i + 1).drop_last() =~= rv.take(i as int));
            assert(rv.take(i + 1).last() == rv[i as int]);
            proof {
                lemma_rules_view_take(self.rules@, i as int);
            }
            if !(self.rules[i].0 == target) {
                let p = self.rules[i].0.clone();
                let d = self.rules[i].1.clone();
                proof {
                    lemma_rules_view_take(self.rules@, i as int);
                    lemma_rules_view_push(kept@, (p, d));
                }
                kept.push((p, d));
                assert(rv[i as int].0 != pattern@);
                assert(rules_view(kept@) == without_pattern(rv.take(i + 1), pattern@));
            } else {
                assert(rv[i as int].0 == pattern@);
                assert(rules_view(kept@) == without_pattern(rv.take(i + 1), pattern@));
            }
            i += 1;
        }
        assert(rv.take(i as int) =~= rv);
        proof {
            lemma_without_unique(rv, pattern@);
        }
        self.rules = kept;
        self.compile_regexes();
        true
    }

    /// The destination directory joined with the destination of the first
    /// valid rule whose pattern matches `file_name`; none if no rule does.
    pub fn retrieve_destination_directory(&self, file_name: &str) -> (r: Option<String>)
        requires
            self.wf(),
        ensures
            opt_view(r) == resolve(self.rules(), self.destination_directory(), file_name@),
    {
        let ghost cv = compiled_view(self.compiled_rules@);
        assert(cv.skip(0) =~= cv);
        let mut i: usize = 0;
        while i < self.compiled_rules.len()
            invariant
                i <= self.compiled_rules@.len(),
                cv == compiled_view(self.compiled_rules@),
                cv == valid_only(self.rules()),
                first_match(cv, file_name@) == first_match(cv.skip(i as int), file_name@),
            decreases self.compiled_rules@.len() - i,
        {
            assert(cv.skip(i as int).drop_first() =~= cv.skip(i + 1));
            assert(cv.skip(i as int)[0] == cv[i as int]);
            if self.compiled_rules[i].0.is_match(file_name) {
                return Some(join(self.destination_directory.as_str(), self.compiled_rules[i].1.as_str()));
            }
            i += 1;
        }
        None
    }

    /// Takes the rules read from `config_file`, or, when none could be read,
    /// the default rules. Returns whether the defaults were taken (and so
    /// should be stored).
    pub fn load_configurations(
        &mut self,
        config_file: String,
        loaded: Option<Vec<(String, String)>>,
    ) -> (seeded: bool)
        ensures
            final(self).wf(),
            seeded == loaded.is_none(),
            final(self).rules() == rules_from(
                match loaded {
                    Some(v) => rules_view(v@),
                    None => default_rules(),
                },
            ),
            final(self).configuration_file() == config_file@,
            final(self).working_directory() == old(self).working_directory(),
            final(self).destination_directory() == old(self).destination_directory(),
    {
        self.configuration_file = config_file;
        let seeded = loaded.is_none();
        let entries = match loaded {
            Some(v) => v,
            None => Self::seed_configurations(),
        };
        self.set_rules(entries);
        self.compile_regexes();
        seeded
    }

    pub fn get_working_directory(&self) -> (r: &String)
        ensures
            r@ == self.working_directory(),
    {
        &self.working_directory
    }

    pub fn get_configuration_file(&self) -> (r: &String)
        ensures
            r@ == self.configuration_file(),
    {
        &self.configuration_file
    }

    /// The format version written beside the rules.
    pub fn get_version(&self) -> (r: &String)
        ensures
            r@ == self.version(),
    {
        &self.version
    }

    pub fn set_working_directory(&mut self, directory: String)
        ensures
            final(self).working_directory() == directory@,
            final(self).destination_directory() == old(self).destination_directory(),
            final(self).rules() == old(self).rules(),
            final(self).configuration_file() == old(self).configuration_file(),
            final(self).wf() == old(self).wf(),
    {
        self.working_directory = directory;
    }

    pub fn set_destination_directory(&mut self, directory: String)
        ensures
            final(self).destination_directory() == directory@,
            final(self).working_directory() == old(self).working_directory(),
            final(self).rules() == old(self).rules(),
            final(self).configuration_file() == old(self).configuration_file(),
            final(self).wf() == old(self).wf(),
    {
        self.destination_directory = directory;
    }
}

} // verus!
