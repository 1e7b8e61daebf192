//! The configuration: which issues are reported, and in which files.
use crate::clause::texts;
use crate::issue::{kind_name, Issue, IssueKind};
use crate::str_map::{has_key, NameSet, StrMap};
use crate::text::{str_same, Text};
use vstd::prelude::*;
use vstd::string::*;

verus! {

/// What `glob` says of one pattern and one path: whether the path
/// matches, or nothing where the text is no pattern. `Pattern::new` makes
/// the pattern of the text and `Pattern::matches` matches the path
/// against it under the default options. Which characters separate the
/// parts of a path depends on the platform, so nothing is claimed of the
/// answer.
#[verifier::external_body]
fn glob_match(pattern: &str, path: &str) -> Option<bool> {
    match glob::Pattern::new(pattern) {
        Ok(compiled) => Some(compiled.matches(path)),
        Err(_) => None,
    }
}

/// What matching a file against one pattern settles: a match keeps the
/// file out; a text that is no pattern leaves the question open for good;
/// no match settles nothing.
pub open spec fn settled(outcome: Option<bool>) -> Option<Option<bool>> {
    match outcome {
        Some(false) => None,
        Some(true) => Some(Some(false)),
        None => Some(None),
    }
}

/// Whether a file is let through, given what matching it against each
/// pattern of a list gave, in order: the first outcome that settles the
/// question decides; where none does, the file is let through.
pub open spec fn verdict(outcomes: Seq<Option<bool>>) -> Option<bool>
    decreases outcomes.len(),
{
    if outcomes.len() == 0 {
        Some(true)
    } else {
        match settled(outcomes[0]) {
            Some(answer) => answer,
            None => verdict(outcomes.drop_first()),
        }
    }
}

/// What matching a file against one pattern settles.
pub fn settles(outcome: Option<bool>) -> (r: Option<Option<bool>>)
    ensures
        r == settled(outcome),
{
    match outcome {
        Some(false) => None,
        Some(true) => Some(Some(false)),
        None => Some(None),
    }
}

/// Whether a file is let through, given what matching it against each
/// pattern of a list gave.
pub fn let_through(outcomes: &Vec<Option<bool>>) -> (r: Option<bool>)
    ensures
        r == verdict(outcomes@),
{
    let mut i: usize = 0;
    assert(outcomes@.skip(0) =~= outcomes@);
    while i < outcomes.len()
        invariant
            i <= outcomes.len(),
            verdict(outcomes@) == verdict(outcomes@.skip(i as int)),
        decreases outcomes.len() - i,
    {
        let ghost rest = outcomes@.skip(i as int);
        assert(rest[0] == outcomes@[i as int]);
        assert(rest.drop_first() =~= outcomes@.skip(i as int + 1));
        match settles(outcomes[i]) {
            Some(answer) => {
                return answer;
            },
            None => {},
        }
        i += 1;
    }
    Some(true)
}

/// Whether no pattern of the list keeps the file out. Patterns are tried
/// in order up to the first that settles the question.
pub fn passes(patterns: &Vec<String>, file: &str) -> (r: Option<bool>)
    ensures
        patterns@.len() == 0 ==> r == Some(true),
        exists|outcomes: Seq<Option<bool>>|
            outcomes.len() <= patterns@.len() && r == #[trigger] verdict(outcomes),
{
    let ghost mut seen: Seq<Option<bool>> = Seq::empty();
    let mut i: usize = 0;
    while i < patterns.len()
        invariant
            i <= patterns.len(),
            seen.len() == i,
            forall|j: int| 0 <= j < i ==> seen[j] == Some(false),
        decreases patterns.len() - i,
    {
        let outcome = glob_match(patterns[i].as_str(), file);
        proof {
            seen = seen.push(outcome);
        }
        match settles(outcome) {
            Some(answer) => {
                proof {
                    lemma_verdict_last(seen);
                }
                return answer;
            },
            None => {},
        }
        i += 1;
    }
    proof {
        lemma_verdict_none(seen);
    }
    Some(true)
}

/// Where no pattern matched, the file is let through.
proof fn lemma_verdict_none(outcomes: Seq<Option<bool>>)
    requires
        forall|j: int| 0 <= j < outcomes.len() ==> outcomes[j] == Some(false),
    ensures
        verdict(outcomes) == Some(true),
    decreases outcomes.len(),
{
    if outcomes.len() > 0 {
        lemma_verdict_none(outcomes.drop_first());
    }
}

/// Where only the last pattern decides, it decides the verdict.
proof fn lemma_verdict_last(outcomes: Seq<Option<bool>>)
    requires
        outcomes.len() > 0,
        forall|j: int| 0 <= j < outcomes.len() - 1 ==> outcomes[j] == Some(false),
        outcomes.last() != Some(false),
    ensures
        settled(outcomes.last()) == Some(verdict(outcomes)),
    decreases outcomes.len(),
{
    if outcomes.len() > 1 {
        let rest = outcomes.drop_first();
        assert(rest.last() == outcomes.last());
        lemma_verdict_last(rest);
    }
}

/// What is analysed for security.
#[derive(Debug)]
pub struct SecurityConfig {
    pub ignore_files: Vec<String>,
    pub ignore_sink_files: StrMap<Vec<String>>,
    pub max_depth: u8,
}

impl SecurityConfig {
    /// The settings from which every configuration starts.
    pub fn new() -> (r: Self)
        ensures
            r.ignore_files@.len() == 0,
            r.ignore_sink_files.wf(),
            r.ignore_sink_files.entries().len() == 0,
            r.max_depth == 40,
    {
        Self { ignore_files: Vec::new(), ignore_sink_files: StrMap::new(), max_depth: 40 }
    }
}

impl Default for SecurityConfig {
    fn default() -> (r: Self)
        ensures
            r.ignore_files@.len() == 0,
            r.ignore_sink_files.wf(),
            r.ignore_sink_files.entries().len() == 0,
            r.max_depth == 40,
    {
        Self::new()
    }
}

/// The configuration.
#[derive(Debug)]
pub struct Config {
    pub migration_symbols: StrMap<String>,
    pub find_unused_expressions: bool,
    pub find_unused_definitions: bool,
    pub allowed_issues: Option<Vec<IssueKind>>,
    pub allowable_issues: Option<Vec<IssueKind>>,
    pub issues_to_fix: Vec<IssueKind>,
    pub ignore_files: Vec<String>,
    pub test_files: Vec<String>,
    pub ignore_issue_files: Vec<(IssueKind, Vec<String>)>,
    pub ignore_all_issues_in_files: Vec<String>,
    pub security_config: SecurityConfig,
    pub root_dir: String,
    pub ignore_mixed_issues: bool,
    pub add_fixmes: bool,
    pub remove_fixmes: bool,
    pub all_custom_issues: NameSet,
    pub ast_diff: bool,
}

/// The patterns of the files in which issues of the kind are ignored: the
/// first entry for the kind.
pub open spec fn ignored_files_of(entries: Seq<(IssueKind, Vec<String>)>, kind: IssueKind) -> Option<
    Seq<Text>,
>
    decreases entries.len(),
{
    if entries.len() == 0 {
        None
    } else if entries[0].0 == kind {
        Some(texts(entries[0].1@))
    } else {
        ignored_files_of(entries.drop_first(), kind)
    }
}

/// The kind whose name the text is.
pub open spec fn kind_named(name: Text) -> Option<IssueKind> {
    if name == kind_name(IssueKind::ImpossibleTypeComparison) {
        Some(IssueKind::ImpossibleTypeComparison)
    } else if name == kind_name(IssueKind::RedundantTypeComparison) {
        Some(IssueKind::RedundantTypeComparison)
    } else if name == kind_name(IssueKind::ImpossibleTruthinessCheck) {
        Some(IssueKind::ImpossibleTruthinessCheck)
    } else if name == kind_name(IssueKind::RedundantTruthinessCheck) {
        Some(IssueKind::RedundantTruthinessCheck)
    } else if name == kind_name(IssueKind::ImpossibleIssetCheck) {
        Some(IssueKind::ImpossibleIssetCheck)
    } else if name == kind_name(IssueKind::RedundantIssetCheck) {
        Some(IssueKind::RedundantIssetCheck)
    } else {
        None
    }
}

/// The kind whose name the text is.
pub fn kind_from_name(name: &str) -> (r: Option<IssueKind>)
    ensures
        r == kind_named(name@),
{
    if str_same(name, "ImpossibleTypeComparison") {
        Some(IssueKind::ImpossibleTypeComparison)
    } else if str_same(name, "RedundantTypeComparison") {
        Some(IssueKind::RedundantTypeComparison)
    } else if str_same(name, "ImpossibleTruthinessCheck") {
        Some(IssueKind::ImpossibleTruthinessCheck)
    } else if str_same(name, "RedundantTruthinessCheck") {
        Some(IssueKind::RedundantTruthinessCheck)
    } else if str_same(name, "ImpossibleIssetCheck") {
        Some(IssueKind::ImpossibleIssetCheck)
    } else if str_same(name, "RedundantIssetCheck") {
        Some(IssueKind::RedundantIssetCheck)
    } else {
        None
    }
}

/// The kind is in the list.
fn has_kind(kinds: &Vec<IssueKind>, kind: IssueKind) -> (r: bool)
    ensures
        r == kinds@.contains(kind),
{
    let mut i: usize = 0;
    while i < kinds.len()
        invariant
            i <= kinds.len(),
            forall|j: int| 0 <= j < i ==> kinds@[j] != kind,
        decreases kinds.len() - i,
    {
        if kinds[i] == kind {
            return true;
        }
        i += 1;
    }
    false
}

impl Config {
    /// The configuration of a project that has no settings of its own.
    pub fn new(root_dir: String, all_custom_issues: NameSet) -> (r: Self)
        ensures
            r.root_dir == root_dir,
            r.all_custom_issues == all_custom_issues,
            r.allowed_issues is None,
            r.allowable_issues is None,
            r.ignore_all_issues_in_files@.len() == 0,
            r.ignore_issue_files@.len() == 0,
            r.security_config.ignore_files@.len() == 0,
            r.security_config.max_depth == 40,
            !r.find_unused_expressions && !r.find_unused_definitions && !r.ignore_mixed_issues
                && !r.add_fixmes && !r.remove_fixmes && !r.ast_diff,
    {
        Self {
            root_dir,
            find_unused_expressions: false,
            find_unused_definitions: false,
            ignore_mixed_issues: false,
            allowed_issues: None,
            migration_symbols: StrMap::new(),
            ignore_files: Vec::new(),
            test_files: Vec::new(),
            ignore_issue_files: Vec::new(),
            ignore_all_issues_in_files: Vec::new(),
            security_config: SecurityConfig::new(),
            issues_to_fix: Vec::new(),
            add_fixmes: false,
            remove_fixmes: false,
            all_custom_issues,
            allowable_issues: None,
            ast_diff: false,
        }
    }

    /// True when issues of the kind of `issue` are reported: where a list
    /// of allowed kinds is set, the kind must be in it.
    pub fn can_add_issue(&self, issue: &Issue) -> (r: bool)
        ensures
            r == match self.allowed_issues {
                Some(kinds) => kinds@.contains(issue.kind),
                None => true,
            },
    {
        match &self.allowed_issues {
            Some(issue_filter) => has_kind(issue_filter, issue.kind),
            None => true,
        }
    }

    /// Whether issues are reported in the file: whether no pattern of the
    /// files in which all issues are ignored matches it. None where a text
    /// that is tried is no pattern.
    pub fn allow_issues_in_file(&self, file: &str) -> (r: Option<bool>)
        ensures
            self.ignore_all_issues_in_files@.len() == 0 ==> r == Some(true),
            exists|outcomes: Seq<Option<bool>>|
                outcomes.len() <= self.ignore_all_issues_in_files@.len() && r
                    == #[trigger] verdict(outcomes),
    {
        passes(&self.ignore_all_issues_in_files, file)
    }

    /// Whether issues of the kind are reported in the file: whether no
    /// pattern of the files in which the kind is ignored matches it. None
    /// where a text that is tried is no pattern.
    pub fn allow_issue_kind_in_file(&self, issue_kind: &IssueKind, file: &str) -> (r: Option<bool>)
        ensures
            ignored_files_of(self.ignore_issue_files@, *issue_kind) is None ==> r == Some(true),
            exists|outcomes: Seq<Option<bool>>| r == #[trigger] verdict(outcomes),
    {
        let ghost entries = self.ignore_issue_files@;
        let mut i: usize = 0;
        assert(entries.skip(0) =~= entries);
        while i < self.ignore_issue_files.len()
            invariant
                i <= self.ignore_issue_files.len(),
                entries == self.ignore_issue_files@,
                ignored_files_of(entries, *issue_kind) == ignored_files_of(
                    entries.skip(i as int),
                    *issue_kind,
                ),
            decreases self.ignore_issue_files.len() - i,
        {
            let ghost rest = entries.skip(i as int);
            assert(rest[0] == entries[i as int]);
            assert(rest.drop_first() =~= entries.skip(i as int + 1));
            if self.ignore_issue_files[i].0 == *issue_kind {
                return passes(&self.ignore_issue_files[i].1, file);
            }
            i += 1;
        }
        assert(verdict(Seq::<Option<bool>>::empty()) == Some(true));
        Some(true)
    }

    /// Whether taints are followed in the file: whether no pattern of the
    /// files that the security analysis ignores matches it. None where a
    /// text that is tried is no pattern.
    pub fn allow_taints_in_file(&self, file: &str) -> (r: Option<bool>)
        ensures
            self.security_config.ignore_files@.len() == 0 ==> r == Some(true),
            exists|outcomes: Seq<Option<bool>>|
                outcomes.len() <= self.security_config.ignore_files@.len() && r
                    == #[trigger] verdict(outcomes),
    {
        passes(&self.security_config.ignore_files, file)
    }
}

/// The settings of the security analysis as a project states them.
#[derive(Debug)]
pub struct SecurityValues {
    pub ignore_files: Vec<String>,
    pub ignore_sink_files: StrMap<Vec<String>>,
}

/// The settings as a project states them: paths relative to the project,
/// kinds of issues by their names.
#[derive(Debug)]
pub struct ConfigValues {
    pub ignore_files: Vec<String>,
    pub test_files: Vec<String>,
    /// For the name of a kind of issue, the files in which it is ignored;
    /// for `*`, the files in which every issue is ignored.
    pub ignore_issue_files: StrMap<Vec<String>>,
    pub allowed_issues: Vec<String>,
    pub security_analysis: SecurityValues,
}

/// The path below the directory `cwd`.
pub open spec fn below(cwd: Text, path: Text) -> Text {
    cwd + "/"@ + path
}

/// The paths below the directory `cwd`.
pub open spec fn all_below(cwd: Text, paths: Seq<Text>) -> Seq<Text> {
    paths.map_values(|p: Text| below(cwd, p))
}

/// Every name of the list is the name of a kind of issue.
pub open spec fn all_kinds(names: Seq<Text>) -> bool {
    forall|i: int| 0 <= i < names.len() ==> kind_named(#[trigger] names[i]) is Some
}

/// The kinds that the names stand for.
pub open spec fn kinds_named(names: Seq<Text>) -> Seq<IssueKind> {
    names.map_values(|n: Text| kind_named(n)->0)
}

/// Every name under which files are listed is `*` or the name of a kind
/// of issue.
pub open spec fn keys_known(entries: Seq<(Text, Vec<String>)>) -> bool {
    forall|i: int|
        0 <= i < entries.len() ==> (#[trigger] entries[i]).0 == "*"@ || kind_named(entries[i].0)
            is Some
}

/// For each kind that is named among the first `n` entries, the files in
/// which it is ignored, below `cwd`.
pub open spec fn kind_files(cwd: Text, entries: Seq<(Text, Vec<String>)>, n: nat) -> Seq<
    (IssueKind, Seq<Text>),
>
    decreases n,
{
    if n == 0 || n > entries.len() {
        Seq::empty()
    } else if entries[n - 1].0 == "*"@ {
        kind_files(cwd, entries, (n - 1) as nat)
    } else {
        kind_files(cwd, entries, (n - 1) as nat).push(
            (kind_named(entries[n - 1].0)->0, all_below(cwd, texts(entries[n - 1].1@))),
        )
    }
}

/// The value of a list of kinds with their files.
pub open spec fn kind_files_view(s: Seq<(IssueKind, Vec<String>)>) -> Seq<(IssueKind, Seq<Text>)> {
    s.map_values(|e: (IssueKind, Vec<String>)| (e.0, texts(e.1@)))
}

/// The value of a map of lists of paths.
pub open spec fn path_lists_view(e: Seq<(Text, Vec<String>)>) -> Seq<(Text, Seq<Text>)> {
    crate::str_map::map_vals(e, |v: Vec<String>| texts(v@))
}

/// The paths below the directory `cwd`.
pub fn prefix_all(cwd: &str, paths: &Vec<String>) -> (r: Vec<String>)
    ensures
        texts(r@) == all_below(cwd@, texts(paths@)),
{
    let mut r: Vec<String> = Vec::new();
    let mut i: usize = 0;
    while i < paths.len()
        invariant
            i <= paths.len(),
            r.len() == i,
            forall|j: int| 0 <= j < i ==> (#[trigger] r@[j])@ == below(cwd@, paths@[j]@),
        decreases paths.len() - i,
    {
        let mut path = String::from_str(cwd);
        path.append("/");
        path.append(paths[i].as_str());
        r.push(path);
        i += 1;
    }
    assert(texts(r@) =~= all_below(cwd@, texts(paths@)));
    r
}

impl ConfigValues {
    /// The names of kinds of issues are all known.
    pub open spec fn wf(&self) -> bool {
        &&& self.ignore_issue_files.wf()
        &&& self.security_analysis.ignore_sink_files.wf()
        &&& keys_known(self.ignore_issue_files.entries())
        &&& all_kinds(texts(self.allowed_issues@))
    }

    /// True when the names of kinds of issues are all known.
    pub fn names_known(&self) -> (r: bool)
        requires
            self.ignore_issue_files.wf(),
            self.security_analysis.ignore_sink_files.wf(),
        ensures
            r == self.wf(),
    {
        let mut i: usize = 0;
        while i < self.ignore_issue_files.len()
            invariant
                i <= self.ignore_issue_files.entries().len(),
                forall|j: int|
                    0 <= j < i ==> (#[trigger] self.ignore_issue_files.entries()[j]).0 == "*"@
                        || kind_named(self.ignore_issue_files.entries()[j].0) is Some,
            decreases self.ignore_issue_files.entries().len() - i,
        {
            let key = self.ignore_issue_files.key_at(i);
            if !str_same(key.as_str(), "*") && kind_from_name(key.as_str()).is_none() {
                return false;
            }
            i += 1;
        }
        let mut k: usize = 0;
        while k < self.allowed_issues.len()
            invariant
                k <= self.allowed_issues.len(),
                keys_known(self.ignore_issue_files.entries()),
                forall|j: int|
                    0 <= j < k ==> kind_named(#[trigger] texts(self.allowed_issues@)[j]) is Some,
            decreases self.allowed_issues.len() - k,
        {
            if kind_from_name(self.allowed_issues[k].as_str()).is_none() {
                assert(kind_named(texts(self.allowed_issues@)[k as int]) is None);
                return false;
            }
            k += 1;
        }
        true
    }
}

impl Config {
    /// Takes over the settings that a project states. Paths are taken to
    /// be below the directory `cwd`. The files in which every issue is
    /// ignored stay as they are where the project lists none under `*`;
    /// all kinds of issues are allowed where the project names none.
    pub fn update(&mut self, cwd: &String, values: &ConfigValues)
        requires
            values.wf(),
        ensures
            texts(final(self).ignore_files@) == all_below(cwd@, texts(values.ignore_files@)),
            texts(final(self).test_files@) == all_below(cwd@, texts(values.test_files@)),
            kind_files_view(final(self).ignore_issue_files@) == kind_files(
                cwd@,
                values.ignore_issue_files.entries(),
                values.ignore_issue_files.entries().len(),
            ),
            texts(final(self).ignore_all_issues_in_files@) == if has_key(
                values.ignore_issue_files.entries(),
                "*"@,
            ) {
                all_below(
                    cwd@,
                    texts(crate::str_map::value_of(values.ignore_issue_files.entries(), "*"@)@),
                )
            } else {
                texts(old(self).ignore_all_issues_in_files@)
            },
            match final(self).allowed_issues {
                Some(kinds) => values.allowed_issues@.len() > 0 && kinds@ == kinds_named(
                    texts(values.allowed_issues@),
                ),
                None => values.allowed_issues@.len() == 0,
            },
            texts(final(self).security_config.ignore_files@) == all_below(
                cwd@,
                texts(values.security_analysis.ignore_files@),
            ),
            final(self).security_config.ignore_sink_files.wf(),
            path_lists_view(final(self).security_config.ignore_sink_files.entries())
                == crate::str_map::map_vals(
                values.security_analysis.ignore_sink_files.entries(),
                |v: Vec<String>| all_below(cwd@, texts(v@)),
            ),
            final(self).security_config.max_depth == old(self).security_config.max_depth,
            final(self).root_dir == old(self).root_dir,
    {
        self.ignore_files = prefix_all(cwd.as_str(), &values.ignore_files);
        self.test_files = prefix_all(cwd.as_str(), &values.test_files);
        let ghost entries = values.ignore_issue_files.entries();
        let mut by_kind: Vec<(IssueKind, Vec<String>)> = Vec::new();
        let mut i: usize = 0;
        assert(kind_files_view(by_kind@) =~= kind_files(cwd@, entries, 0));
        while i < values.ignore_issue_files.len()
            invariant
                i <= entries.len(),
                entries == values.ignore_issue_files.entries(),
                keys_known(entries),
                kind_files_view(by_kind@) == kind_files(cwd@, entries, i as nat),
            decreases entries.len() - i,
        {
            let key = values.ignore_issue_files.key_at(i);
            let files = values.ignore_issue_files.value_at(i);
            if !str_same(key.as_str(), "*") {
                assert(kind_named(entries[i as int].0) is Some);
                match kind_from_name(key.as_str()) {
                    Some(kind) => {
                        let ghost before = kind_files_view(by_kind@);
                        let prefixed = prefix_all(cwd.as_str(), files);
                        by_kind.push((kind, prefixed));
                        assert(kind_files_view(by_kind@) =~= before.push(
                            (kind, all_below(cwd@, texts(files@))),
                        ));
                    },
                    None => {},
                }
            }
            i += 1;
        }
        self.ignore_issue_files = by_kind;
        match values.ignore_issue_files.get("*") {
            Some(files) => {
                self.ignore_all_issues_in_files = prefix_all(cwd.as_str(), files);
            },
            None => {},
        }
        if values.allowed_issues.len() == 0 {
            self.allowed_issues = None;
        } else {
            let mut kinds: Vec<IssueKind> = Vec::new();
            let mut k: usize = 0;
            while k < values.allowed_issues.len()
                invariant
                    k <= values.allowed_issues.len(),
                    all_kinds(texts(values.allowed_issues@)),
                    kinds.len() == k,
                    forall|j: int|
                        0 <= j < k ==> kinds@[j] == kind_named(
                            #[trigger] texts(values.allowed_issues@)[j],
                        )->0,
                decreases values.allowed_issues.len() - k,
            {
                assert(kind_named(texts(values.allowed_issues@)[k as int]) is Some);
                match kind_from_name(values.allowed_issues[k].as_str()) {
                    Some(kind) => {
                        kinds.push(kind);
                    },
                    None => {},
                }
                k += 1;
            }
            assert(kinds@ =~= kinds_named(texts(values.allowed_issues@)));
            self.allowed_issues = Some(kinds);
        }
        self.security_config.ignore_files = prefix_all(
            cwd.as_str(),
            &values.security_analysis.ignore_files,
        );
        let ghost sinks = values.security_analysis.ignore_sink_files.entries();
        let mut sink_files: StrMap<Vec<String>> = StrMap::new();
        let mut n: usize = 0;
        while n < values.security_analysis.ignore_sink_files.len()
            invariant
                n <= sinks.len(),
                sinks == values.security_analysis.ignore_sink_files.entries(),
                values.security_analysis.ignore_sink_files.wf(),
                sink_files.wf(),
                sink_files.entries().len() == n,
                forall|j: int|
                    0 <= j < n ==> (#[trigger] sink_files.entries()[j]).0 == sinks[j].0 && texts(
                        sink_files.entries()[j].1@,
                    ) == all_below(cwd@, texts(sinks[j].1@)),
            decreases sinks.len() - n,
        {
            let key = values.security_analysis.ignore_sink_files.key_at(n);
            let files = values.security_analysis.ignore_sink_files.value_at(n);
            proof {
                assert forall|j: int| 0 <= j < sink_files.entries().len() implies crate::text::text_lt(
                    (#[trigger] sink_files.entries()[j]).0,
                    key@,
                ) by {
                    assert(sink_files.entries()[j].0 == sinks[j].0);
                    assert(crate::text::text_lt(sinks[j].0, sinks[n as int].0));
                }
            }
            sink_files.append(key.clone(), prefix_all(cwd.as_str(), files));
            n += 1;
        }
        assert(path_lists_view(sink_files.entries()) =~= crate::str_map::map_vals(
            sinks,
            |v: Vec<String>| all_below(cwd@, texts(v@)),
        ));
        self.security_config.ignore_sink_files = sink_files;
    }
}

/// A step on the way of tainted data: where it was seen, if that is known,
/// and the step before.
#[derive(Debug)]
pub struct TaintedNode {
    /// The file in which the data was seen at this step.
    pub file_path: Option<String>,
    pub previous: Option<Box<TaintedNode>>,
}

/// The name under which the files are listed in which data on its way from
/// the source to the sink is ignored.
pub open spec fn flow_name(source_type: Text, sink_type: Text) -> Text {
    source_type + " -> "@ + sink_type
}

/// The files in which the data was seen on its way, last step first.
pub open spec fn files_on_way(node: TaintedNode) -> Seq<Text>
    decreases node,
{
    let here = match node.file_path {
        Some(file) => seq![file@],
        None => Seq::empty(),
    };
    match node.previous {
        Some(previous) => here + files_on_way(*previous),
        None => here,
    }
}

/// Whether data is followed along its way, given for each file on the way,
/// in order, whether the patterns let it through: the first file that is
/// not let through, or for which the question stays open, decides; where
/// every file is let through, the data is followed.
pub open spec fn way_verdict(outcomes: Seq<Option<bool>>) -> Option<bool>
    decreases outcomes.len(),
{
    if outcomes.len() == 0 {
        Some(true)
    } else {
        match outcomes[0] {
            Some(true) => way_verdict(outcomes.drop_first()),
            other => other,
        }
    }
}

/// Whether data is followed along its way, given for each file on the way
/// whether the patterns let it through.
pub fn follow_way(outcomes: &Vec<Option<bool>>) -> (r: Option<bool>)
    ensures
        r == way_verdict(outcomes@),
{
    let mut i: usize = 0;
    assert(outcomes@.skip(0) =~= outcomes@);
    while i < outcomes.len()
        invariant
            i <= outcomes.len(),
            way_verdict(outcomes@) == way_verdict(outcomes@.skip(i as int)),
        decreases outcomes.len() - i,
    {
        let ghost rest = outcomes@.skip(i as int);
        assert(rest[0] == outcomes@[i as int]);
        assert(rest.drop_first() =~= outcomes@.skip(i as int + 1));
        match outcomes[i] {
            Some(true) => {},
            other => {
                return other;
            },
        }
        i += 1;
    }
    Some(true)
}

/// Whether no step on the way was seen in a file that one of the patterns
/// matches; none where a text is no pattern. The files are looked at in
/// the order of the way, up to the first that decides. Without patterns,
/// and on a way without files, the data is followed.
fn way_passes(patterns: &Vec<String>, node: &TaintedNode) -> (r: Option<bool>)
    ensures
        patterns@.len() == 0 ==> r == Some(true),
        files_on_way(*node).len() == 0 ==> r == Some(true),
        exists|outcomes: Seq<Option<bool>>|
            outcomes.len() <= files_on_way(*node).len() && r == #[trigger] way_verdict(outcomes),
    decreases node,
{
    let here = match &node.file_path {
        Some(file) => passes(patterns, file.as_str()),
        None => Some(true),
    };
    match here {
        Some(true) => match &node.previous {
            Some(more_previous) => {
                let r = way_passes(patterns, more_previous);
                proof {
                    let rest = choose|outcomes: Seq<Option<bool>>|
                        outcomes.len() <= files_on_way(**more_previous).len() && r
                            == #[trigger] way_verdict(outcomes);
                    if node.file_path is Some {
                        let all = seq![Some(true)] + rest;
                        assert(all.drop_first() =~= rest);
                        assert(way_verdict(all) == r);
                    } else {
                        assert(files_on_way(*node) =~= files_on_way(**more_previous));
                        assert(way_verdict(rest) == r);
                    }
                }
                r
            },
            None => {
                assert(way_verdict(Seq::<Option<bool>>::empty()) == Some(true));
                Some(true)
            },
        },
        other => {
            proof {
                let one = seq![other];
                assert(way_verdict(one) == other);
                assert(node.file_path is Some);
            }
            other
        },
    }
}

impl Config {
    /// Whether data on its way from the source to the sink is followed:
    /// whether no step on the way was seen in a file that matches a
    /// pattern listed for this source and sink. None where a text that is
    /// listed for them is no pattern. Data is followed where no patterns
    /// are listed for the source and sink; on a way without files only a
    /// text that is no pattern keeps the answer open.
    pub fn allow_data_from_source_in_file(
        &self,
        source_type: &str,
        sink_type: &str,
        node: &TaintedNode,
    ) -> (r: Option<bool>)
        requires
            self.security_config.ignore_sink_files.wf(),
        ensures
            match crate::str_map::lookup(
                self.security_config.ignore_sink_files.entries(),
                flow_name(source_type@, sink_type@),
            ) {
                None => r == Some(true),
                Some(patterns) => patterns@.len() == 0 ==> r == Some(true),
            },
            r is None || exists|outcomes: Seq<Option<bool>>|
                outcomes.len() <= files_on_way(*node).len() && r == #[trigger] way_verdict(
                    outcomes,
                ),
            files_on_way(*node).len() == 0 ==> r is None || r == Some(true),
    {
        let mut str_type = String::from_str(source_type);
        str_type.append(" -> ");
        str_type.append(sink_type);
        match self.security_config.ignore_sink_files.get(str_type.as_str()) {
            Some(issue_entries) => {
                let mut i: usize = 0;
                while i < issue_entries.len()
                    invariant
                        i <= issue_entries.len(),
                        crate::str_map::lookup(
                            self.security_config.ignore_sink_files.entries(),
                            flow_name(source_type@, sink_type@),
                        ) == Some(*issue_entries),
                    decreases issue_entries.len() - i,
                {
                    if glob_match(issue_entries[i].as_str(), "").is_none() {
                        return None;
                    }
                    i += 1;
                }
                way_passes(issue_entries, node)
            },
            None => {
                assert(way_verdict(Seq::<Option<bool>>::empty()) == Some(true));
                Some(true)
            },
        }
    }
}

} // verus!
