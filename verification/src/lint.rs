//! The lint engine skeleton: a registry of rules keyed by id, a
//! configuration deciding which rules run and which paths are skipped, and
//! the orchestration that parses files and aggregates violations.

use vstd::prelude::*;

use crate::cst::{matlab_cst, read_matlab_cst, CstFailure};
use crate::errors::MaltError;
use crate::paths::{path_prefix_matches, path_starts_with, str_eq};

verus! {

/// One reported lint finding, localized to a file, line and column.
#[derive(Debug)]
pub struct Violation {
    pub rule_id: String,
    pub message: String,
    pub filepath: String,
    pub line: usize,
    pub column: usize,
    pub severity: String,
}

/// The decimal digit character for `d`.
pub open spec fn digit_char(d: nat) -> char {
    if d == 0 {
        '0'
    } else if d == 1 {
        '1'
    } else if d == 2 {
        '2'
    } else if d == 3 {
        '3'
    } else if d == 4 {
        '4'
    } else if d == 5 {
        '5'
    } else if d == 6 {
        '6'
    } else if d == 7 {
        '7'
    } else if d == 8 {
        '8'
    } else {
        '9'
    }
}

/// The decimal digits of `n`, most significant first.
pub open spec fn dec_str(n: nat) -> Seq<char>
    decreases n,
{
    if n < 10 {
        seq![digit_char(n)]
    } else {
        dec_str(n / 10).push(digit_char(n % 10))
    }
}

fn digit_str(d: usize) -> (r: &'static str)
    requires
        d < 10,
    ensures
        r@ == seq![digit_char(d as nat)],
{
    let r: &'static str = match d {
        0 => "0",
        1 => "1",
        2 => "2",
        3 => "3",
        4 => "4",
        5 => "5",
        6 => "6",
        7 => "7",
        8 => "8",
        _ => "9",
    };
    proof {
        reveal_strlit("0");
        reveal_strlit("1");
        reveal_strlit("2");
        reveal_strlit("3");
        reveal_strlit("4");
        reveal_strlit("5");
        reveal_strlit("6");
        reveal_strlit("7");
        reveal_strlit("8");
        reveal_strlit("9");
        assert(r@ =~= seq![digit_char(d as nat)]);
    }
    r
}

/// The decimal rendering of `n`.
pub fn usize_to_string(n: usize) -> (r: String)
    ensures
        r@ == dec_str(n as nat),
    decreases n,
{
    let d = n % 10;
    if n < 10 {
        let r = digit_str(d).to_owned();
        proof {
            assert(r@ =~= dec_str(n as nat));
        }
        r
    } else {
        let mut r = usize_to_string(n / 10);
        r.append(digit_str(d));
        proof {
            assert(r@ =~= dec_str(n as nat));
        }
        r
    }
}

impl Violation {
    pub fn new(
        rule_id: String,
        message: String,
        filepath: String,
        line: usize,
        column: usize,
        severity: String,
    ) -> (r: Self)
        ensures
            r.rule_id == rule_id,
            r.message == message,
            r.filepath == filepath,
            r.line == line,
            r.column == column,
            r.severity == severity,
    {
        Self { rule_id, message, filepath, line, column, severity }
    }

    /// The textual rendering `<path>:<line>:<column>: <message> [<rule_id>]`.
    pub fn render(&self) -> (r: String)
        ensures
            r@ == self.filepath@ + ":"@ + dec_str(self.line as nat) + ":"@ + dec_str(
                self.column as nat,
            ) + ": "@ + self.message@ + " ["@ + self.rule_id@ + "]"@,
    {
        let mut r = self.filepath.clone();
        r.append(":");
        r.append(usize_to_string(self.line).as_str());
        r.append(":");
        r.append(usize_to_string(self.column).as_str());
        r.append(": ");
        r.append(self.message.as_str());
        r.append(" [");
        r.append(self.rule_id.as_str());
        r.append("]");
        r
    }
}

/// One linting rule: an id unique in its registry, a display name, a
/// description, a severity label and an enabled flag.
#[derive(Debug)]
pub struct Rule {
    pub id: String,
    pub name: String,
    pub description: String,
    pub severity: String,
    pub enabled: bool,
}

impl Rule {
    /// A fresh rule: severity `warning`, enabled.
    pub fn new(id: String, name: String, description: String) -> (r: Self)
        ensures
            r.id == id,
            r.name == name,
            r.description == description,
            r.severity@ == "warning"@,
            r.enabled,
    {
        Self { id, name, description, severity: "warning".to_owned(), enabled: true }
    }
}

impl Clone for Rule {
    fn clone(&self) -> (r: Self)
        ensures
            r == *self,
    {
        Rule {
            id: self.id.clone(),
            name: self.name.clone(),
            description: self.description.clone(),
            severity: self.severity.clone(),
            enabled: self.enabled,
        }
    }
}

/// The registry of rules, a mutable id-keyed map stored as unique-keyed
/// entries.
#[derive(Debug)]
pub struct RuleRegistry {
    pub rules: Vec<Rule>,
}

impl View for RuleRegistry {
    type V = Map<Seq<char>, Rule>;

    /// The registry as a map from rule ids to rules.
    open spec fn view(&self) -> Map<Seq<char>, Rule> {
        Map::new(
            |k: Seq<char>|
                exists|i: int| 0 <= i < self.rules@.len() && (#[trigger] self.rules@[i]).id@ == k,
            |k: Seq<char>|
                self.rules@[choose|i: int|
                    0 <= i < self.rules@.len() && (#[trigger] self.rules@[i]).id@ == k],
        )
    }
}

impl RuleRegistry {
    /// Rule ids are unique.
    pub open spec fn wf(&self) -> bool {
        forall|i: int, j: int|
            0 <= i < j < self.rules@.len() ==> (#[trigger] self.rules@[i]).id@ != (
            #[trigger] self.rules@[j]).id@
    }

    pub fn new() -> (r: Self)
        ensures
            r.rules@.len() == 0,
            r.wf(),
    {
        Self { rules: Vec::new() }
    }

    /// The position of the rule with this id, if registered.
    fn find_rule(&self, rule_id: &str) -> (r: Option<usize>)
        ensures
            r matches Some(i) ==> i < self.rules@.len() && self.rules@[i as int].id@ == rule_id@,
            r is None ==> forall|i: int|
                0 <= i < self.rules@.len() ==> (#[trigger] self.rules@[i]).id@ != rule_id@,
    {
        let n = self.rules.len();
        let mut i: usize = 0;
        while i < n
            invariant
                n == self.rules@.len(),
                0 <= i <= n,
                forall|j: int| 0 <= j < i ==> (#[trigger] self.rules@[j]).id@ != rule_id@,
            decreases n - i,
        {
            if str_eq(self.rules[i].id.as_str(), rule_id) {
                return Some(i);
            }
            i += 1;
        }
        None
    }

    /// Adds the rule under its id, overwriting any rule of that id.
    pub fn register(&mut self, rule: Rule)
        requires
            old(self).wf(),
        ensures
            final(self).wf(),
            final(self)@ == old(self)@.insert(rule.id@, rule),
    {
        let ghost k = rule.id@;
        match self.find_rule(rule.id.as_str()) {
            Some(i) => {
                self.rules.remove(i);
                proof {
                    let o = old(self).rules@;
                    let s = self.rules@;
                    assert forall|j: int| 0 <= j < s.len() implies #[trigger] s[j] == if j < i {
                        o[j]
                    } else {
                        o[j + 1]
                    } by {}
                    assert(forall|j: int| 0 <= j < s.len() ==> (#[trigger] s[j]).id@ != k);
                }
            },
            None => {},
        }
        let ghost mid = self.rules@;
        proof {
            assert(forall|j: int| 0 <= j < mid.len() ==> (#[trigger] mid[j]).id@ != k);
            assert(forall|i2: int, j2: int|
                0 <= i2 < j2 < mid.len() ==> (#[trigger] mid[i2]).id@ != (#[trigger] mid[j2]).id@);
        }
        self.rules.push(rule);
        proof {
            let s = self.rules@;
            assert(s.len() == mid.len() + 1);
            assert(s.last().id@ == k);
            assert(forall|j: int| 0 <= j < mid.len() ==> s[j] == mid[j]);
            assert forall|k2: Seq<char>| #[trigger]
                final(self)@.contains_key(k2) == old(self)@.insert(k, rule).contains_key(k2) by {
                if k2 != k {
                    if exists|j: int| 0 <= j < mid.len() && (#[trigger] mid[j]).id@ == k2 {
                        let j = choose|j: int| 0 <= j < mid.len() && (#[trigger] mid[j]).id@ == k2;
                        let oj = if j < old(self).rules@.len() && old(self).rules@[j].id@ == k2 {
                            j
                        } else {
                            j + 1
                        };
                        assert(0 <= oj < old(self).rules@.len() && old(self).rules@[oj].id@ == k2);
                    }
                    if exists|j: int|
                        0 <= j < old(self).rules@.len() && (#[trigger] old(self).rules@[j]).id@
                            == k2 {
                        let j = choose|j: int|
                            0 <= j < old(self).rules@.len() && (#[trigger] old(self).rules@[j]).id@
                                == k2;
                        if j < mid.len() && mid[j].id@ == k2 {
                            assert(s[j].id@ == k2);
                        } else {
                            assert(0 <= j - 1 < mid.len() && mid[j - 1].id@ == k2);
                            assert(s[j - 1].id@ == k2);
                        }
                    }
                }
            }
            assert forall|k2: Seq<char>| final(self)@.contains_key(k2) implies #[trigger] (final(self)@[k2]) == old(self)@.insert(k, rule)[k2] by {
                let j = choose|i2: int| 0 <= i2 < s.len() && (#[trigger] s[i2]).id@ == k2;
                if k2 == k {
                    assert(j == s.len() - 1);
                } else {
                    assert(j < mid.len() && mid[j].id@ == k2);
                    let oj = if j < old(self).rules@.len() && old(self).rules@[j].id@ == k2 {
                        j
                    } else {
                        j + 1
                    };
                    assert(0 <= oj < old(self).rules@.len() && old(self).rules@[oj].id@ == k2
                        && old(self).rules@[oj] == s[j]);
                    let oc = choose|i2: int|
                        0 <= i2 < old(self).rules@.len() && (#[trigger] old(self).rules@[i2]).id@
                            == k2;
                    assert(oc == oj);
                }
            }
            assert(final(self)@ =~= old(self)@.insert(k, rule));
        }
    }

    pub fn get(&self, rule_id: &str) -> (r: Option<&Rule>)
        requires
            self.wf(),
        ensures
            r matches Some(rule) ==> self@.contains_key(rule_id@) && *rule == self@[rule_id@],
            r is None ==> !self@.contains_key(rule_id@),
    {
        match self.find_rule(rule_id) {
            Some(i) => {
                proof {
                    let c = choose|j: int|
                        0 <= j < self.rules@.len() && (#[trigger] self.rules@[j]).id@ == rule_id@;
                    assert(c == i);
                }
                Some(&self.rules[i])
            },
            None => None,
        }
    }

    /// The rules whose enabled flag is set, each once, in unspecified order.
    pub fn get_enabled_rules(&self) -> (r: Vec<Rule>)
        requires
            self.wf(),
        ensures
            forall|j: int|
                0 <= j < r@.len() ==> (#[trigger] r@[j]).enabled && self.rules@.contains(r@[j]),
            forall|i: int|
                0 <= i < self.rules@.len() && (#[trigger] self.rules@[i]).enabled
                    ==> r@.contains(self.rules@[i]),
            r@.no_duplicates(),
    {
        let n = self.rules.len();
        let mut r: Vec<Rule> = Vec::new();
        let mut i: usize = 0;
        while i < n
            invariant
                self.wf(),
                n == self.rules@.len(),
                0 <= i <= n,
                forall|j: int|
                    0 <= j < r@.len() ==> (#[trigger] r@[j]).enabled && self.rules@.contains(
                        r@[j],
                    ),
                forall|j: int|
                    0 <= j < i && (#[trigger] self.rules@[j]).enabled ==> r@.contains(
                        self.rules@[j],
                    ),
                forall|k: int|
                    #![trigger r@[k]]
                    0 <= k < r@.len() ==> exists|j: int| 0 <= j < i && r@[k] == self.rules@[j],
                r@.no_duplicates(),
            decreases n - i,
        {
            if self.rules[i].enabled {
                let ghost r0 = r@;
                r.push(self.rules[i].clone());
                proof {
                    assert(r@.last() == self.rules@[i as int]);
                    assert(self.rules@.contains(r@[r@.len() - 1]));
                    assert(forall|j: int| 0 <= j < r0.len() ==> r@[j] == r0[j]);
                    assert forall|j: int|
                        0 <= j < i + 1 && (#[trigger] self.rules@[j]).enabled implies r@.contains(
                        self.rules@[j],
                    ) by {
                        if j < i {
                            let w = choose|w: int| 0 <= w < r0.len() && r0[w] == self.rules@[j];
                            assert(r@[w] == self.rules@[j]);
                        } else {
                            assert(r@[r@.len() - 1] == self.rules@[j]);
                        }
                    }
                    assert forall|k: int|
                        #![trigger r@[k]]
                        0 <= k < r@.len() implies exists|j: int|
                        0 <= j < i + 1 && r@[k] == self.rules@[j] by {
                        if k < r0.len() {
                            let j = choose|j: int| 0 <= j < i && r0[k] == self.rules@[j];
                            assert(r@[k] == self.rules@[j]);
                        } else {
                            assert(r@[k] == self.rules@[i as int]);
                        }
                    }
                    // a rule already collected came from an earlier entry,
                    // whose id differs from this one's
                    assert forall|k: int| 0 <= k < r0.len() implies (#[trigger] r@[k]) != r@.last() by {
                        let j = choose|j: int| 0 <= j < i && (#[trigger] r0[k]) == self.rules@[j];
                        assert(self.rules@[j].id@ != self.rules@[i as int].id@);
                    }
                    assert(r@.no_duplicates());
                }
            }
            i += 1;
        }
        r
    }

    /// Sets the enabled flag of the rule with this id; whether it existed.
    pub fn enable_rule(&mut self, rule_id: &str) -> (r: bool)
        requires
            old(self).wf(),
        ensures
            final(self).wf(),
            r == old(self)@.contains_key(rule_id@),
            r ==> final(self)@ == old(self)@.insert(
                rule_id@,
                Rule { enabled: true, ..old(self)@[rule_id@] },
            ),
            !r ==> final(self)@ == old(self)@,
    {
        self.set_enabled(rule_id, true)
    }

    /// Clears the enabled flag of the rule with this id; whether it existed.
    pub fn disable_rule(&mut self, rule_id: &str) -> (r: bool)
        requires
            old(self).wf(),
        ensures
            final(self).wf(),
            r == old(self)@.contains_key(rule_id@),
            r ==> final(self)@ == old(self)@.insert(
                rule_id@,
                Rule { enabled: false, ..old(self)@[rule_id@] },
            ),
            !r ==> final(self)@ == old(self)@,
    {
        self.set_enabled(rule_id, false)
    }

    fn set_enabled(&mut self, rule_id: &str, value: bool) -> (r: bool)
        requires
            old(self).wf(),
        ensures
            final(self).wf(),
            r == old(self)@.contains_key(rule_id@),
            r ==> final(self)@ == old(self)@.insert(
                rule_id@,
                Rule { enabled: value, ..old(self)@[rule_id@] },
            ),
            !r ==> final(self)@ == old(self)@,
    {
        match self.find_rule(rule_id) {
            Some(i) => {
                proof {
                    let c = choose|j: int|
                        0 <= j < self.rules@.len() && (#[trigger] self.rules@[j]).id@ == rule_id@;
                    assert(c == i);
                }
                let mut rule = self.rules[i].clone();
                rule.enabled = value;
                self.register(rule);
                true
            },
            None => {
                assert(final(self)@ =~= old(self)@);
                false
            },
        }
    }

    /// The registered rule ids, in storage order.
    pub fn rule_ids(&self) -> (r: Vec<String>)
        ensures
            r@.len() == self.rules@.len(),
            forall|i: int| 0 <= i < r@.len() ==> (#[trigger] r@[i])@ == self.rules@[i].id@,
    {
        let n = self.rules.len();
        let mut r: Vec<String> = Vec::new();
        let mut i: usize = 0;
        while i < n
            invariant
                n == self.rules@.len(),
                0 <= i <= n,
                r@.len() == i,
                forall|j: int| 0 <= j < i ==> (#[trigger] r@[j])@ == self.rules@[j].id@,
            decreases n - i,
        {
            r.push(self.rules[i].id.clone());
            i += 1;
        }
        r
    }

    pub fn len(&self) -> (r: usize)
        ensures
            r == self.rules@.len(),
    {
        self.rules.len()
    }

    pub fn is_empty(&self) -> (r: bool)
        ensures
            r == (self.rules@.len() == 0),
    {
        self.rules.len() == 0
    }
}

impl Default for RuleRegistry {
    fn default() -> (r: Self)
        ensures
            r.rules@.len() == 0,
            r.wf(),
    {
        Self::new()
    }
}

/// Whether some string of `v` reads `s`.
pub open spec fn contains_str(v: Seq<String>, s: Seq<char>) -> bool {
    exists|i: int| 0 <= i < v.len() && (#[trigger] v[i])@ == s
}

/// The linting configuration: an explicit allowlist, a denylist, and path
/// prefixes excluded from linting entirely.
#[derive(Debug)]
pub struct LintConfig {
    pub enabled_rules: Vec<String>,
    pub disabled_rules: Vec<String>,
    pub exclude_paths: Vec<String>,
}

/// A rule in the denylist is always off; otherwise an empty allowlist turns
/// every rule on; otherwise only allowlist members are on.
pub open spec fn spec_rule_enabled(c: LintConfig, id: Seq<char>) -> bool {
    &&& !contains_str(c.disabled_rules@, id)
    &&& (c.enabled_rules@.len() == 0 || contains_str(c.enabled_rules@, id))
}

/// A path is excluded exactly when some configured exclusion is a
/// component-wise path prefix of it.
pub open spec fn spec_path_excluded(c: LintConfig, path: Seq<char>) -> bool {
    exists|i: int|
        0 <= i < c.exclude_paths@.len() && path_starts_with(
            path,
            (#[trigger] c.exclude_paths@[i])@,
        )
}

impl LintConfig {
    pub fn new() -> (r: Self)
        ensures
            r.enabled_rules@.len() == 0,
            r.disabled_rules@.len() == 0,
            r.exclude_paths@.len() == 0,
    {
        Self { enabled_rules: Vec::new(), disabled_rules: Vec::new(), exclude_paths: Vec::new() }
    }

    fn list_contains(list: &Vec<String>, s: &str) -> (r: bool)
        ensures
            r == contains_str(list@, s@),
    {
        let n = list.len();
        let mut i: usize = 0;
        while i < n
            invariant
                n == list@.len(),
                0 <= i <= n,
                forall|j: int| 0 <= j < i ==> (#[trigger] list@[j])@ != s@,
            decreases n - i,
        {
            if str_eq(list[i].as_str(), s) {
                return true;
            }
            i += 1;
        }
        false
    }

    /// Whether the rule runs under this configuration: denylist membership
    /// always turns it off; otherwise an empty allowlist turns every rule
    /// on; otherwise only allowlist membership does.
    pub fn is_rule_enabled(&self, rule_id: &str) -> (r: bool)
        ensures
            r == spec_rule_enabled(*self, rule_id@),
    {
        if Self::list_contains(&self.disabled_rules, rule_id) {
            return false;
        }
        if self.enabled_rules.len() == 0 {
            return true;
        }
        Self::list_contains(&self.enabled_rules, rule_id)
    }

    /// Whether at least one configured exclusion is a component-wise path
    /// prefix of the path.
    pub fn is_path_excluded(&self, path: &str) -> (r: bool)
        ensures
            r == spec_path_excluded(*self, path@),
    {
        let n = self.exclude_paths.len();
        let mut i: usize = 0;
        while i < n
            invariant
                n == self.exclude_paths@.len(),
                0 <= i <= n,
                forall|j: int|
                    0 <= j < i ==> !path_starts_with(path@, (#[trigger] self.exclude_paths@[j])@),
            decreases n - i,
        {
            if path_prefix_matches(path, self.exclude_paths[i].as_str()) {
                return true;
            }
            i += 1;
        }
        false
    }
}

impl Default for LintConfig {
    fn default() -> (r: Self)
        ensures
            r.enabled_rules@.len() == 0,
            r.disabled_rules@.len() == 0,
            r.exclude_paths@.len() == 0,
    {
        Self::new()
    }
}

/// One file handed to the engine: its path and the outcome of reading it.
#[derive(Debug)]
pub struct LintInput {
    pub path: String,
    pub source: Result<Vec<u8>, String>,
}

/// A file the engine can finish with: skipped by configuration, or read and
/// parsed by the grammar.
pub open spec fn lint_input_ok(c: LintConfig, path: Seq<char>, source: Result<Vec<u8>, String>) -> bool {
    spec_path_excluded(c, path) || (source matches Ok(b) && matlab_cst(b@) is Some)
}

/// The lint engine: a registry, a configuration, and the per-file
/// orchestration.
#[derive(Debug)]
pub struct LintEngine {
    pub registry: RuleRegistry,
    pub config: LintConfig,
}

impl LintEngine {
    /// An engine over the given registry and configuration, or fresh empty
    /// ones.
    pub fn new(registry: Option<RuleRegistry>, config: Option<LintConfig>) -> (r: Result<
        Self,
        MaltError,
    >)
        ensures
            r is Ok,
            r matches Ok(e) ==> match registry {
                Some(rg) => e.registry == rg,
                None => e.registry.rules@.len() == 0,
            },
            r matches Ok(e) ==> match config {
                Some(cf) => e.config == cf,
                None => e.config.enabled_rules@.len() == 0 && e.config.disabled_rules@.len() == 0
                    && e.config.exclude_paths@.len() == 0,
            },
    {
        let registry = match registry {
            Some(rg) => rg,
            None => RuleRegistry::new(),
        };
        let config = match config {
            Some(cf) => cf,
            None => LintConfig::new(),
        };
        Ok(Self { registry, config })
    }

    /// Lints one file. An excluded path yields no violations without looking
    /// at the bytes; otherwise a failed read is an I/O error and a file the
    /// grammar yields no tree for is a parse error. The current rule set
    /// emits no violations.
    pub fn lint_file(&self, filepath: &str, source: &Result<Vec<u8>, String>) -> (r: Result<
        Vec<Violation>,
        MaltError,
    >)
        ensures
            r matches Ok(v) ==> v@.len() == 0,
            spec_path_excluded(self.config, filepath@) ==> r is Ok,
            !spec_path_excluded(self.config, filepath@) ==> (*source matches Err(m) ==> (r
                matches Err(e) && e matches MaltError::Io(m2) && m2 == m)),
            !spec_path_excluded(self.config, filepath@) ==> (*source matches Ok(b)
                ==> (matlab_cst(b@) is None <==> (r matches Err(e) && e is Parse))),
            *source matches Ok(b) ==> (r is Ok || (r matches Err(e) && e is Parse)),
            r is Ok <==> lint_input_ok(self.config, filepath@, *source),
            r matches Err(e) ==> e is Io || e is Parse,
    {
        if self.config.is_path_excluded(filepath) {
            return Ok(Vec::new());
        }
        let bytes = match source {
            Err(m) => {
                return Err(MaltError::Io(m.clone()));
            },
            Ok(b) => b,
        };
        match read_matlab_cst(bytes) {
            Ok(_) => Ok(Vec::new()),
            Err(CstFailure::Language(m)) => Err(MaltError::TreeSitter(m)),
            Err(CstFailure::NoTree(m)) => Err(MaltError::Parse(m)),
        }
    }

    /// Lints the files in order, concatenating their violations and stopping
    /// at the first error.
    pub fn lint_files(&self, files: Vec<LintInput>) -> (r: Result<Vec<Violation>, MaltError>)
        ensures
            r matches Ok(v) ==> v@.len() == 0,
            r is Ok <==> (forall|i: int|
                0 <= i < files@.len() ==> lint_input_ok(
                    self.config,
                    (#[trigger] files@[i]).path@,
                    files@[i].source,
                )),
            r matches Err(e) ==> e is Io || e is Parse,
            r matches Err(e) ==> exists|i: int|
                #![trigger files@[i]]
                {
                    &&& 0 <= i < files@.len()
                    &&& !lint_input_ok(self.config, files@[i].path@, files@[i].source)
                    &&& forall|j: int|
                        0 <= j < i ==> lint_input_ok(
                            self.config,
                            (#[trigger] files@[j]).path@,
                            files@[j].source,
                        )
                    &&& (files@[i].source matches Err(m) ==> (e matches MaltError::Io(m2)
                        && m2 == m))
                    &&& (files@[i].source is Ok ==> e is Parse)
                },
    {
        let mut all: Vec<Violation> = Vec::new();
        let n = files.len();
        let mut i: usize = 0;
        while i < n
            invariant
                n == files@.len(),
                0 <= i <= n,
                all@.len() == 0,
                forall|j: int|
                    0 <= j < i ==> lint_input_ok(
                        self.config,
                        (#[trigger] files@[j]).path@,
                        files@[j].source,
                    ),
            decreases n - i,
        {
            let mut violations = match self.lint_file(files[i].path.as_str(), &files[i].source) {
                Ok(v) => v,
                Err(e) => {
                    return Err(e);
                },
            };
            all.append(&mut violations);
            i += 1;
        }
        Ok(all)
    }
}

} // verus!
