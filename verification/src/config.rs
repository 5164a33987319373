//! Site configuration: site-wide settings, build directories, navigation
//! entries and the content rules that decide how each file is rendered.

use vstd::prelude::*;
use crate::error::Error;
use crate::extra::ExtraMap;
use crate::text::{blank, is_blank, starts_with, has_prefix, contains_dot_dot, has_dot_dot,
    decimal, decimal_string, chars_of, chars_eq};

verus! {

/// The directories that a build reads from and writes to.
#[derive(Debug, Clone, PartialEq, Eq)]
pub struct BuildConfig {
    pub content_dir: String,
    pub output_dir: String,
    pub templates_dir: String,
    pub static_dir: String,
}

impl BuildConfig {
    /// The default directories.
    pub fn new() -> (b: Self)
        ensures
            b.content_dir@ == "content"@,
            b.output_dir@ == "dist"@,
            b.templates_dir@ == "templates"@,
            b.static_dir@ == "static"@,
    {
        Self::default()
    }
}

impl Default for BuildConfig {
    fn default() -> (b: Self)
        ensures
            b.content_dir@ == "content"@,
            b.output_dir@ == "dist"@,
            b.templates_dir@ == "templates"@,
            b.static_dir@ == "static"@,
    {
        BuildConfig {
            content_dir: default_content_dir(),
            output_dir: default_output_dir(),
            templates_dir: default_templates_dir(),
            static_dir: default_static_dir(),
        }
    }
}

/// The content directory used where none is configured.
pub fn default_content_dir() -> (r: String)
    ensures
        r@ == "content"@,
{
    "content".to_owned()
}

/// The output directory used where none is configured.
pub fn default_output_dir() -> (r: String)
    ensures
        r@ == "dist"@,
{
    "dist".to_owned()
}

/// The templates directory used where none is configured.
pub fn default_templates_dir() -> (r: String)
    ensures
        r@ == "templates"@,
{
    "templates".to_owned()
}

/// The static files directory used where none is configured.
pub fn default_static_dir() -> (r: String)
    ensures
        r@ == "static"@,
{
    "static".to_owned()
}

/// The site name used where none is configured.
pub fn default_site_name() -> (r: String)
    ensures
        r@ == "librawssg"@,
{
    "librawssg".to_owned()
}

/// The language used where none is configured.
pub fn default_language() -> (r: Option<String>)
    ensures
        r matches Some(l) && l@ == "en"@,
{
    Some("en".to_owned())
}

/// An entry of the navigation bar or side bar, with its sub-entries.
#[derive(Debug, PartialEq, Eq)]
pub struct NavItem {
    pub label: String,
    pub url: String,
    pub children: Vec<NavItem>,
}

impl NavItem {
    /// An entry without sub-entries.
    pub fn new(label: &str, url: &str) -> (n: Self)
        ensures
            n.label@ == label@,
            n.url@ == url@,
            n.children.len() == 0,
    {
        NavItem { label: label.to_owned(), url: url.to_owned(), children: Vec::new() }
    }
}

/// Whether `a` and `b` have the same label, URL and number of sub-entries.
pub open spec fn same_nav_item(a: NavItem, b: NavItem) -> bool {
    &&& a.label == b.label
    &&& a.url == b.url
    &&& a.children.len() == b.children.len()
}

/// The copy of a list of navigation entries.
fn clone_nav_items(items: &Vec<NavItem>) -> (r: Vec<NavItem>)
    ensures
        r.len() == items.len(),
        forall|i: int| 0 <= i < items.len() ==> #[trigger] same_nav_item(r@[i], items@[i]),
    decreases items,
{
    let mut r: Vec<NavItem> = Vec::new();
    let mut i: usize = 0;
    while i < items.len()
        invariant
            i <= items.len(),
            r.len() == i,
            forall|j: int| 0 <= j < i ==> #[trigger] same_nav_item(r@[j], items@[j]),
        decreases items.len() - i,
    {
        assert(decreases_to!(items => items@[i as int]));
        let item = clone_nav_item(&items[i]);
        r.push(item);
        i = i + 1;
    }
    r
}

/// The copy of a navigation entry and its sub-entries.
fn clone_nav_item(item: &NavItem) -> (r: NavItem)
    ensures
        same_nav_item(r, *item),
    decreases item,
{
    let children = clone_nav_items(&item.children);
    NavItem { label: item.label.clone(), url: item.url.clone(), children }
}

impl Clone for NavItem {
    fn clone(&self) -> (r: Self)
        ensures
            same_nav_item(r, *self),
    {
        clone_nav_item(self)
    }
}

impl Default for NavItem {
    fn default() -> (n: Self)
        ensures
            n.label@ == Seq::<char>::empty(),
            n.url@ == Seq::<char>::empty(),
            n.children.len() == 0,
    {
        NavItem { label: String::new(), url: String::new(), children: Vec::new() }
    }
}

/// Site-wide settings.
#[derive(Debug, Clone, PartialEq)]
pub struct SiteConfig {
    pub navbar: Vec<NavItem>,
    pub sidebar: Vec<NavItem>,
    pub site_name: String,
    pub description: Option<String>,
    pub language: Option<String>,
    pub base_url: Option<String>,
    pub author: Option<String>,
    pub repo_url: Option<String>,
    pub license: Option<String>,
    pub extra: ExtraMap,
}

/// Whether `s` holds the text `t`.
pub open spec fn holds_text(s: Option<String>, t: Seq<char>) -> bool {
    s matches Some(v) && v@ == t
}

impl SiteConfig {
    /// Whether every setting but the site name has its default value.
    pub open spec fn has_default_settings(&self) -> bool {
        &&& self.navbar.len() == 0
        &&& self.sidebar.len() == 0
        &&& self.description is None
        &&& holds_text(self.language, "en"@)
        &&& self.base_url is None
        &&& self.author is None
        &&& self.repo_url is None
        &&& self.license is None
        &&& self.extra@ == Map::<Seq<char>, serde_json::Value>::empty()
    }

    /// The default settings under the site name `site_name`.
    pub fn new(site_name: &str) -> (s: Self)
        ensures
            s.site_name@ == site_name@,
            s.has_default_settings(),
    {
        let mut s = Self::default();
        s.site_name = site_name.to_owned();
        s
    }
}

impl Default for SiteConfig {
    fn default() -> (s: Self)
        ensures
            s.site_name@ == "librawssg"@,
            s.has_default_settings(),
    {
        SiteConfig {
            navbar: Vec::new(),
            sidebar: Vec::new(),
            site_name: default_site_name(),
            description: None,
            language: default_language(),
            base_url: None,
            author: None,
            repo_url: None,
            license: None,
            extra: ExtraMap::new(),
        }
    }
}

/// How the files whose path matches `pattern` are rendered: with
/// `template`, and, when listing is on, with an index page rendered with
/// `list_template`.
#[derive(Debug, Clone, PartialEq)]
pub struct ContentRule {
    pub name: String,
    pub pattern: String,
    pub template: String,
    pub list_template: Option<String>,
    pub list_enabled: bool,
    pub extra: ExtraMap,
}

impl ContentRule {
    /// A rule without listing and without extra values.
    pub fn new(name: &str, pattern: &str, template: &str) -> (r: Self)
        ensures
            r.name@ == name@,
            r.pattern@ == pattern@,
            r.template@ == template@,
            r.list_template is None,
            !r.list_enabled,
            r.extra@ == Map::<Seq<char>, serde_json::Value>::empty(),
    {
        ContentRule {
            name: name.to_owned(),
            pattern: pattern.to_owned(),
            template: template.to_owned(),
            list_template: None,
            list_enabled: false,
            extra: ExtraMap::new(),
        }
    }
}

impl Default for ContentRule {
    fn default() -> (r: Self)
        ensures
            r.name@ == Seq::<char>::empty(),
            r.pattern@ == Seq::<char>::empty(),
            r.template@ == Seq::<char>::empty(),
            r.list_template is None,
            !r.list_enabled,
            r.extra@ == Map::<Seq<char>, serde_json::Value>::empty(),
    {
        ContentRule {
            name: String::new(),
            pattern: String::new(),
            template: String::new(),
            list_template: None,
            list_enabled: false,
            extra: ExtraMap::new(),
        }
    }
}

/// The whole configuration of a site.
#[derive(Debug, Clone, PartialEq)]
pub struct Config {
    pub site: SiteConfig,
    pub build: BuildConfig,
    pub content_rules: Vec<ContentRule>,
    pub extra: ExtraMap,
}

/// The names of the rules, in order.
pub open spec fn rule_names(rules: Seq<ContentRule>) -> Seq<Seq<char>> {
    rules.map_values(|r: ContentRule| r.name@)
}

/// The position of the first rule named `name`.
pub open spec fn first_rule_named(rules: Seq<ContentRule>, name: Seq<char>) -> Option<int>
    decreases rules.len(),
{
    if rules.len() == 0 {
        None
    } else {
        match first_rule_named(rules.drop_last(), name) {
            Some(i) => Some(i),
            None => if rules.last().name@ == name {
                Some(rules.len() - 1)
            } else {
                None
            },
        }
    }
}

/// Whether two rules share a name.
pub open spec fn has_duplicate_names(rules: Seq<ContentRule>) -> bool {
    exists|i: int, j: int| 0 <= i < j < rules.len() && #[trigger] same_name(rules, i, j)
}

/// Whether the rules at `i` and `j` have the same name.
pub open spec fn same_name(rules: Seq<ContentRule>, i: int, j: int) -> bool {
    rules[i].name@ == rules[j].name@
}

/// What is wrong with a single rule at position `idx`, if anything.
pub open spec fn rule_problem(idx: nat, rule: ContentRule) -> Option<Seq<char>> {
    if is_blank(rule.name@) {
        Some("content rule #"@ + decimal(idx) + ": name cannot be empty"@)
    } else if is_blank(rule.pattern@) {
        Some("content rule '"@ + rule.name@ + "': pattern cannot be empty"@)
    } else if has_dot_dot(rule.pattern@) {
        Some("content rule '"@ + rule.name@ + "': pattern contains invalid '..'"@)
    } else if is_blank(rule.template@) {
        Some("content rule '"@ + rule.name@ + "': template cannot be empty"@)
    } else {
        None
    }
}

/// The problem of the first faulty rule among `rules[from..]`.
pub open spec fn first_rule_problem(rules: Seq<ContentRule>, from: nat) -> Option<Seq<char>>
    decreases rules.len() - from,
{
    if from >= rules.len() {
        None
    } else {
        match rule_problem(from, rules[from as int]) {
            Some(m) => Some(m),
            None => first_rule_problem(rules, from + 1),
        }
    }
}

impl Config {
    /// Why the configuration is invalid, or `None` when it is valid: checked
    /// in order, the site name must not be blank, there must be a rule, no
    /// two rules may share a name, each rule needs a name, a pattern without
    /// `..` and a template, and a base URL must start with `http://` or
    /// `https://`.
    pub open spec fn validation_problem(&self) -> Option<Seq<char>> {
        if is_blank(self.site.site_name@) {
            Some("site_name cannot be empty"@)
        } else if self.content_rules.len() == 0 {
            Some("at least one content rule must be defined"@)
        } else if has_duplicate_names(self.content_rules@) {
            Some("duplicate content rule names are not allowed"@)
        } else if first_rule_problem(self.content_rules@, 0) is Some {
            first_rule_problem(self.content_rules@, 0)
        } else if self.site.base_url matches Some(u) && !(has_prefix(u@, "http://"@) || has_prefix(u@, "https://"@)) {
            Some("site.base_url must start with http:// or https://"@)
        } else {
            None
        }
    }

    /// The default site settings and directories, without rules.
    pub fn new() -> (c: Self)
        ensures
            c.site.site_name@ == "librawssg"@,
            c.site.has_default_settings(),
            c.build.content_dir@ == "content"@,
            c.build.output_dir@ == "dist"@,
            c.build.templates_dir@ == "templates"@,
            c.build.static_dir@ == "static"@,
            c.content_rules.len() == 0,
            c.extra@ == Map::<Seq<char>, serde_json::Value>::empty(),
    {
        Self::default()
    }

    /// The configuration with its site name set to `name`.
    pub fn with_site_name(self, name: &str) -> (c: Self)
        ensures
            c.site.site_name@ == name@,
            c.site.navbar == self.site.navbar,
            c.site.sidebar == self.site.sidebar,
            c.site.description == self.site.description,
            c.site.language == self.site.language,
            c.site.base_url == self.site.base_url,
            c.site.author == self.site.author,
            c.site.repo_url == self.site.repo_url,
            c.site.license == self.site.license,
            c.site.extra == self.site.extra,
            c.build == self.build,
            c.content_rules == self.content_rules,
            c.extra == self.extra,
    {
        let mut c = self;
        c.site.site_name = name.to_owned();
        c
    }

    /// Adds `rule` after the existing rules.
    pub fn add_content_rule(&mut self, rule: ContentRule)
        ensures
            final(self).content_rules@ == old(self).content_rules@.push(rule),
            final(self).site == old(self).site,
            final(self).build == old(self).build,
            final(self).extra == old(self).extra,
    {
        self.content_rules.push(rule);
    }

    /// The position of the first rule named `name`.
    fn position_of_rule(&self, name: &str) -> (r: Option<usize>)
        ensures
            match r {
                Some(i) => first_rule_named(self.content_rules@, name@) == Some(i as int)
                    && i < self.content_rules.len(),
                None => first_rule_named(self.content_rules@, name@) is None,
            },
    {
        let n = chars_of(name);
        let mut i: usize = 0;
        assert(self.content_rules@.take(0) =~= Seq::<ContentRule>::empty());
        while i < self.content_rules.len()
            invariant
                i <= self.content_rules.len(),
                n@ == name@,
                first_rule_named(self.content_rules@.take(i as int), name@) is None,
            decreases self.content_rules.len() - i,
        {
            let rule_name = chars_of(self.content_rules[i].name.as_str());
            assert(self.content_rules@.take(i + 1).drop_last() =~= self.content_rules@.take(i as int));
            if chars_eq(&rule_name, &n) {
                proof { lemma_first_rule_named_prefix(self.content_rules@, name@, i + 1); }
                return Some(i);
            }
            i = i + 1;
        }
        assert(self.content_rules@.take(self.content_rules.len() as int) =~= self.content_rules@);
        None
    }

    /// The first rule named `name`, if any.
    pub fn find_rule_by_name(&self, name: &str) -> (r: Option<&ContentRule>)
        ensures
            match first_rule_named(self.content_rules@, name@) {
                Some(i) => r == Some(&self.content_rules@[i]),
                None => r is None,
            },
    {
        match self.position_of_rule(name) {
            Some(i) => Some(&self.content_rules[i]),
            None => None,
        }
    }

    /// Removes the first rule named `name` and gives it back.
    pub fn remove_rule_by_name(&mut self, name: &str) -> (r: Option<ContentRule>)
        ensures
            match first_rule_named(old(self).content_rules@, name@) {
                Some(i) => r == Some(old(self).content_rules@[i])
                    && final(self).content_rules@ == old(self).content_rules@.remove(i),
                None => r is None && final(self).content_rules@ == old(self).content_rules@,
            },
            final(self).site == old(self).site,
            final(self).build == old(self).build,
            final(self).extra == old(self).extra,
    {
        match self.position_of_rule(name) {
            Some(i) => Some(self.content_rules.remove(i)),
            None => None,
        }
    }

    /// Whether two rules share a name.
    pub fn has_duplicate_rule_names(&self) -> (r: bool)
        ensures
            r == has_duplicate_names(self.content_rules@),
    {
        let rules = &self.content_rules;
        let mut j: usize = 0;
        while j < rules.len()
            invariant
                j <= rules.len(),
                rules@ == self.content_rules@,
                forall|a: int, b: int| 0 <= a < b < j ==> rules@[a].name@ != rules@[b].name@,
            decreases rules.len() - j,
        {
            let nj = chars_of(rules[j].name.as_str());
            let mut i: usize = 0;
            while i < j
                invariant
                    i <= j < rules.len(),
                    rules@ == self.content_rules@,
                    nj@ == rules@[j as int].name@,
                    forall|a: int| 0 <= a < i ==> rules@[a].name@ != rules@[j as int].name@,
                decreases j - i,
            {
                let ni = chars_of(rules[i].name.as_str());
                if chars_eq(&ni, &nj) {
                    assert(same_name(rules@, i as int, j as int));
                    return true;
                }
                i = i + 1;
            }
            j = j + 1;
        }
        false
    }

    /// The problem of the first faulty rule, if any.
    fn check_rules(&self) -> (r: Option<String>)
        ensures
            match r {
                Some(m) => first_rule_problem(self.content_rules@, 0) == Some(m@),
                None => first_rule_problem(self.content_rules@, 0) is None,
            },
    {
        let rules = &self.content_rules;
        let mut idx: usize = 0;
        while idx < rules.len()
            invariant
                idx <= rules.len(),
                rules@ == self.content_rules@,
                first_rule_problem(rules@, 0) == first_rule_problem(rules@, idx as nat),
            decreases rules.len() - idx,
        {
            let rule = &rules[idx];
            assert(rules@[idx as int] == *rule);
            if blank(rule.name.as_str()) {
                let mut m = "content rule #".to_owned();
                let d = decimal_string(idx);
                m.append(d.as_str());
                m.append(": name cannot be empty");
                assert(m@ =~= "content rule #"@ + decimal(idx as nat) + ": name cannot be empty"@);
                assert(rule_problem(idx as nat, rules@[idx as int]) == Some(m@));
                assert(first_rule_problem(rules@, idx as nat) == Some(m@));
                return Some(m);
            }
            if blank(rule.pattern.as_str()) {
                let mut m = "content rule '".to_owned();
                m.append(rule.name.as_str());
                m.append("': pattern cannot be empty");
                assert(m@ =~= "content rule '"@ + rule.name@ + "': pattern cannot be empty"@);
                assert(rule_problem(idx as nat, rules@[idx as int]) == Some(m@));
                assert(first_rule_problem(rules@, idx as nat) == Some(m@));
                return Some(m);
            }
            if contains_dot_dot(rule.pattern.as_str()) {
                let mut m = "content rule '".to_owned();
                m.append(rule.name.as_str());
                m.append("': pattern contains invalid '..'");
                assert(m@ =~= "content rule '"@ + rule.name@ + "': pattern contains invalid '..'"@);
                assert(rule_problem(idx as nat, rules@[idx as int]) == Some(m@));
                assert(first_rule_problem(rules@, idx as nat) == Some(m@));
                return Some(m);
            }
            if blank(rule.template.as_str()) {
                let mut m = "content rule '".to_owned();
                m.append(rule.name.as_str());
                m.append("': template cannot be empty");
                assert(m@ =~= "content rule '"@ + rule.name@ + "': template cannot be empty"@);
                assert(rule_problem(idx as nat, rules@[idx as int]) == Some(m@));
                assert(first_rule_problem(rules@, idx as nat) == Some(m@));
                return Some(m);
            }
            assert(rule_problem(idx as nat, rules@[idx as int]) is None);
            idx = idx + 1;
        }
        None
    }

    /// Checks the configuration; the error is the first problem that
    /// [`Config::validation_problem`] names.
    pub fn validate(&self) -> (r: Result<(), Error>)
        ensures
            match r {
                Ok(()) => self.validation_problem() is None,
                Err(e) => e matches Error::Validation(m) && self.validation_problem() == Some(m@),
            },
    {
        if blank(self.site.site_name.as_str()) {
            return Err(Error::Validation("site_name cannot be empty".to_owned()));
        }
        if self.content_rules.len() == 0 {
            return Err(Error::Validation("at least one content rule must be defined".to_owned()));
        }
        if self.has_duplicate_rule_names() {
            return Err(Error::Validation("duplicate content rule names are not allowed".to_owned()));
        }
        match self.check_rules() {
            Some(m) => return Err(Error::Validation(m)),
            None => {},
        }
        match &self.site.base_url {
            Some(u) => {
                if !(starts_with(u.as_str(), "http://") || starts_with(u.as_str(), "https://")) {
                    return Err(Error::Validation("site.base_url must start with http:// or https://".to_owned()));
                }
            },
            None => {},
        }
        Ok(())
    }
}

impl Default for Config {
    fn default() -> (c: Self)
        ensures
            c.site.site_name@ == "librawssg"@,
            c.site.has_default_settings(),
            c.build.content_dir@ == "content"@,
            c.build.output_dir@ == "dist"@,
            c.build.templates_dir@ == "templates"@,
            c.build.static_dir@ == "static"@,
            c.content_rules.len() == 0,
            c.extra@ == Map::<Seq<char>, serde_json::Value>::empty(),
    {
        Config {
            site: SiteConfig::default(),
            build: BuildConfig::default(),
            content_rules: Vec::new(),
            extra: ExtraMap::new(),
        }
    }
}

proof fn lemma_first_rule_named_prefix(rules: Seq<ContentRule>, name: Seq<char>, k: int)
    requires
        0 < k <= rules.len(),
        first_rule_named(rules.take(k - 1), name) is None,
        rules[k - 1].name@ == name,
    ensures
        first_rule_named(rules, name) == Some(k - 1),
{
    assert(rules.take(k).drop_last() =~= rules.take(k - 1));
    assert(rules.take(k).last() == rules[k - 1]);
    assert(first_rule_named(rules.take(k), name) == Some(k - 1));
    lemma_first_rule_named_stable(rules, name, k, k - 1);
}

proof fn lemma_first_rule_named_stable(rules: Seq<ContentRule>, name: Seq<char>, k: int, i: int)
    requires
        0 <= k <= rules.len(),
        first_rule_named(rules.take(k), name) == Some(i),
    ensures
        first_rule_named(rules, name) == Some(i),
    decreases rules.len() - k,
{
    if k < rules.len() {
        let t = rules.take(k + 1);
        assert(t.drop_last() =~= rules.take(k));
        assert(first_rule_named(t, name) == Some(i));
        lemma_first_rule_named_stable(rules, name, k + 1, i);
    } else {
        assert(rules.take(k) =~= rules);
    }
}

/// What the first rule with a name is: the earliest rule so named, or none
/// when no rule has that name.
pub proof fn lemma_first_rule_named_is_earliest(rules: Seq<ContentRule>, name: Seq<char>)
    ensures
        match first_rule_named(rules, name) {
            Some(i) => 0 <= i < rules.len() && rules[i].name@ == name
                && forall|j: int| 0 <= j < i ==> rules[j].name@ != name,
            None => forall|j: int| 0 <= j < rules.len() ==> rules[j].name@ != name,
        },
    decreases rules.len(),
{
    if rules.len() > 0 {
        let init = rules.drop_last();
        lemma_first_rule_named_is_earliest(init, name);
        assert forall|j: int| 0 <= j < init.len() implies init[j] == rules[j] by {}
        assert(rules.last() == rules[rules.len() - 1]);
    }
}

/// A rule added to the configuration is found by its name.
pub proof fn lemma_added_rule_is_found(rules: Seq<ContentRule>, rule: ContentRule)
    ensures
        first_rule_named(rules.push(rule), rule.name@) is Some,
        first_rule_named(rules, rule.name@) is None
            ==> first_rule_named(rules.push(rule), rule.name@) == Some(rules.len() as int),
        first_rule_named(rules, rule.name@) is Some
            ==> first_rule_named(rules.push(rule), rule.name@) == first_rule_named(rules, rule.name@),
{
    assert(rules.push(rule).drop_last() =~= rules);
}

/// When no two rules share a name, once the rule with a name is removed,
/// no rule has that name any more.
pub proof fn lemma_removed_rule_is_gone(rules: Seq<ContentRule>, name: Seq<char>)
    requires
        !has_duplicate_names(rules),
        first_rule_named(rules, name) is Some,
    ensures
        first_rule_named(rules.remove(first_rule_named(rules, name)->0), name) is None,
{
    let i = first_rule_named(rules, name)->0;
    lemma_first_rule_named_is_earliest(rules, name);
    let rest = rules.remove(i);
    lemma_first_rule_named_is_earliest(rest, name);
    if first_rule_named(rest, name) is Some {
        let k = first_rule_named(rest, name)->0;
        if k < i {
            assert(rest[k] == rules[k]);
        } else {
            assert(rest[k] == rules[k + 1]);
            assert(same_name(rules, i, k + 1));
        }
    }
}

/// A configuration that passes validation has at least one rule and no two
/// rules with the same name, and its site name is not blank.
pub proof fn lemma_valid_config_shape(c: Config)
    requires
        c.validation_problem() is None,
    ensures
        c.content_rules.len() > 0,
        !has_duplicate_names(c.content_rules@),
        !is_blank(c.site.site_name@),
{
}

} // verus!
