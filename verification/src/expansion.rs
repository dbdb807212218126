//! Expansion of the `expectations` list of `check.yml`: explicit items, generator
//! items (one expectation per matching file) and items brought in from other files.
//!
//! What the expansion reads from the repository (which files a path pattern
//! matches, a file's content, the items another file holds) comes in an
//! [`ExpansionWorld`]. Where the world lacks an answer, the expansion stops and
//! names what it needs; the caller fetches it, adds it to the world and runs the
//! expansion again. With every answer present the outcome is that of the
//! expansion over the repository itself.

use vstd::prelude::*;
use crate::answer::{clone_opt_string, clone_strings};
use crate::config::{
    inclusion_key, inclusion_key_text, AgentConfig, CheckConfig, Expectation,
    RawExpectationItem, RawGeneratorExpectation, RawIncludedExpectation,
};
use crate::generator::{render_generator_question, replace_from};
use crate::text::{decimal, str_eq};
use crate::validation::{
    concat2, config_error, first_ignore_problem, ignore_pattern_spec, normalize_agent_config,
    numbered, validate_check_config,
};

verus! {

/// The files that a path pattern, read relative to a configuration file, matches.
pub struct PathsAnswer {
    pub config_path: String,
    pub pattern: String,
    pub files: Result<Vec<String>, String>,
}

/// The content of a file, or why it could not be read.
pub struct ContentAnswer {
    pub file: String,
    pub content: Result<String, String>,
}

/// The expectation items that a file holds, or why they could not be read.
pub struct ItemsAnswer {
    pub file: String,
    pub items: Result<Vec<RawExpectationItem>, String>,
}

/// What is known of the repository while expanding.
pub struct ExpansionWorld {
    /// Whether the expansion has a project root to read files under.
    pub has_root: bool,
    pub paths: Vec<PathsAnswer>,
    pub contents: Vec<ContentAnswer>,
    pub items: Vec<ItemsAnswer>,
}

/// An answer the expansion needs and the world does not hold.
pub enum ExpansionNeed {
    Paths { config_path: String, pattern: String },
    Content { file: String },
    Items { file: String },
}

/// Why an expansion did not finish: it failed with a message, or it needs an answer.
pub enum ExpansionStop {
    Failed(String),
    Needs(ExpansionNeed),
}

pub enum NeedView {
    Paths(Seq<char>, Seq<char>),
    Content(Seq<char>),
    Items(Seq<char>),
}

pub enum StopView {
    Failed(Seq<char>),
    Needs(NeedView),
}

impl View for ExpansionNeed {
    type V = NeedView;

    open spec fn view(&self) -> NeedView {
        match self {
            ExpansionNeed::Paths { config_path, pattern } => NeedView::Paths(config_path@, pattern@),
            ExpansionNeed::Content { file } => NeedView::Content(file@),
            ExpansionNeed::Items { file } => NeedView::Items(file@),
        }
    }
}

impl View for ExpansionStop {
    type V = StopView;

    open spec fn view(&self) -> StopView {
        match self {
            ExpansionStop::Failed(m) => StopView::Failed(m@),
            ExpansionStop::Needs(n) => StopView::Needs(n@),
        }
    }
}

pub type ExpectationView = (Seq<char>, Seq<char>, Option<Seq<char>>, Option<Seq<char>>);

/// The expanded paths seen so far and the expectations produced so far.
pub type ExpansionState = (Seq<Seq<char>>, Seq<ExpectationView>);

pub open spec fn opt_view(o: Option<String>) -> Option<Seq<char>> {
    match o {
        Some(s) => Some(s@),
        None => None,
    }
}

pub open spec fn expectation_view(e: Expectation) -> ExpectationView {
    (e.q@, e.a@, opt_view(e.cooldown), opt_view(e.thinking))
}

pub open spec fn strings_view(v: Seq<String>) -> Seq<Seq<char>> {
    v.map_values(|s: String| s@)
}

pub open spec fn expectations_view(v: Seq<Expectation>) -> Seq<ExpectationView> {
    v.map_values(|e: Expectation| expectation_view(e))
}

/// The first answer, from `i` on, for this configuration file and pattern.
pub open spec fn paths_index(ps: Seq<PathsAnswer>, cfg: Seq<char>, pat: Seq<char>, i: int) -> Option<int>
    decreases ps.len() - i,
{
    if i < 0 || i >= ps.len() {
        None
    } else if ps[i].config_path@ == cfg && ps[i].pattern@ == pat {
        Some(i)
    } else {
        paths_index(ps, cfg, pat, i + 1)
    }
}

/// The first content answer, from `i` on, for this file.
pub open spec fn content_index(cs: Seq<ContentAnswer>, f: Seq<char>, i: int) -> Option<int>
    decreases cs.len() - i,
{
    if i < 0 || i >= cs.len() {
        None
    } else if cs[i].file@ == f {
        Some(i)
    } else {
        content_index(cs, f, i + 1)
    }
}

/// The first items answer, from `i` on, for this file.
pub open spec fn items_index(its: Seq<ItemsAnswer>, f: Seq<char>, i: int) -> Option<int>
    decreases its.len() - i,
{
    if i < 0 || i >= its.len() {
        None
    } else if its[i].file@ == f {
        Some(i)
    } else {
        items_index(its, f, i + 1)
    }
}

pub proof fn lemma_paths_index(ps: Seq<PathsAnswer>, cfg: Seq<char>, pat: Seq<char>, i: int)
    ensures
        paths_index(ps, cfg, pat, i) matches Some(k) ==> 0 <= i <= k < ps.len()
            && ps[k].config_path@ == cfg && ps[k].pattern@ == pat,
    decreases ps.len() - i,
{
    if 0 <= i < ps.len() {
        lemma_paths_index(ps, cfg, pat, i + 1);
    }
}

pub proof fn lemma_content_index(cs: Seq<ContentAnswer>, f: Seq<char>, i: int)
    ensures
        content_index(cs, f, i) matches Some(k) ==> 0 <= i <= k < cs.len() && cs[k].file@ == f,
    decreases cs.len() - i,
{
    if 0 <= i < cs.len() {
        lemma_content_index(cs, f, i + 1);
    }
}

pub proof fn lemma_items_index(its: Seq<ItemsAnswer>, f: Seq<char>, i: int)
    ensures
        items_index(its, f, i) matches Some(k) ==> 0 <= i <= k < its.len() && its[k].file@ == f,
    decreases its.len() - i,
{
    if 0 <= i < its.len() {
        lemma_items_index(its, f, i + 1);
    }
}

/// How many of the first `n` items answers name a file that is not on the stack.
pub open spec fn unstacked(its: Seq<ItemsAnswer>, stack: Seq<Seq<char>>, n: int) -> nat
    decreases n,
{
    if n <= 0 {
        0
    } else {
        unstacked(its, stack, n - 1) + if stack.contains(its[n - 1].file@) {
            0nat
        } else {
            1nat
        }
    }
}

/// Pushing a file that has an items answer and is not on the stack lowers the
/// count of answers off the stack.
pub proof fn lemma_unstacked_push(its: Seq<ItemsAnswer>, stack: Seq<Seq<char>>, f: Seq<char>, k: int, n: int)
    requires
        0 <= n <= its.len(),
        0 <= k < its.len(),
        its[k].file@ == f,
        !stack.contains(f),
    ensures
        unstacked(its, stack.push(f), n) <= unstacked(its, stack, n),
        k < n ==> unstacked(its, stack.push(f), n) < unstacked(its, stack, n),
    decreases n,
{
    if n > 0 {
        lemma_unstacked_push(its, stack, f, k, n - 1);
        let x = its[n - 1].file@;
        if stack.contains(x) {
            let p = choose|p: int| 0 <= p < stack.len() && stack[p] == x;
            assert(stack.push(f)[p] == x);
        }
        if x == f {
            assert(stack.push(f)[stack.len() as int] == f);
        }
        if stack.push(f).contains(x) && x != f {
            let p = choose|p: int| 0 <= p < stack.push(f).len() && stack.push(f)[p] == x;
            assert(stack[p] == x);
        }
    }
}

pub open spec fn no_root_message(n: int, label: Seq<char>) -> Seq<char> {
    "expectation "@ + decimal(n as nat) + " uses "@ + label
        + " but config expansion has no project root"@
}

pub open spec fn duplicate_message(n: int, f: Seq<char>) -> Seq<char> {
    "expectation "@ + decimal(n as nat) + " expands duplicate spec path: "@ + f
}

pub open spec fn recursion_message(f: Seq<char>) -> Seq<char> {
    "recursive expectation "@ + inclusion_key() + ": "@ + f
}

/// The files that expectation number `n` expands `pat` to.
pub open spec fn spec_paths(w: ExpansionWorld, cfg: Seq<char>, pat: Seq<char>, n: int, label: Seq<char>) -> Result<Seq<Seq<char>>, StopView> {
    if !w.has_root {
        Err(StopView::Failed(no_root_message(n, label)))
    } else {
        match paths_index(w.paths@, cfg, pat, 0) {
            None => Err(StopView::Needs(NeedView::Paths(cfg, pat))),
            Some(k) => match w.paths@[k].files {
                Ok(v) => Ok(strings_view(v@)),
                Err(m) => Err(StopView::Failed(m@)),
            },
        }
    }
}

/// The content of file `f`.
pub open spec fn spec_content(w: ExpansionWorld, f: Seq<char>) -> Result<Seq<char>, StopView> {
    match content_index(w.contents@, f, 0) {
        None => Err(StopView::Needs(NeedView::Content(f))),
        Some(k) => match w.contents@[k].content {
            Ok(c) => Ok(c@),
            Err(m) => Err(StopView::Failed(m@)),
        },
    }
}

/// The expectation that generator `g` makes from a file with content `c`.
pub open spec fn generated_view(g: RawGeneratorExpectation, c: Seq<char>) -> ExpectationView {
    (replace_from(g.q_template@, 0, c), g.a@, opt_view(g.cooldown), opt_view(g.thinking))
}

/// Generator `g` (expectation number `n`) over `files[j..]`: each file may be
/// expanded once in the whole configuration.
pub open spec fn gen_files(w: ExpansionWorld, g: RawGeneratorExpectation, n: int, files: Seq<Seq<char>>, j: int, st: ExpansionState) -> Result<ExpansionState, StopView>
    decreases files.len() - j,
{
    if j < 0 || j >= files.len() {
        Ok(st)
    } else {
        let f = files[j];
        if st.0.contains(f) {
            Err(StopView::Failed(duplicate_message(n, f)))
        } else {
            match spec_content(w, f) {
                Err(s) => Err(s),
                Ok(c) => gen_files(w, g, n, files, j + 1, (st.0.push(f), st.1.push(generated_view(g, c)))),
            }
        }
    }
}

pub open spec fn explicit_view(e: crate::config::RawExplicitExpectation) -> ExpectationView {
    (e.q@, e.a@, opt_view(e.cooldown), opt_view(e.thinking))
}

/// `items[i..]`, read from configuration file `cfg`, with the files on `stack`
/// being brought in.
pub open spec fn exp_items(w: ExpansionWorld, cfg: Seq<char>, items: Seq<RawExpectationItem>, i: int, stack: Seq<Seq<char>>, st: ExpansionState) -> Result<ExpansionState, StopView>
    decreases unstacked(w.items@, stack, w.items@.len() as int), 1int, items.len() - i,
{
    if i < 0 || i >= items.len() {
        Ok(st)
    } else {
        let n = i + 1;
        let next = match items[i] {
            RawExpectationItem::Explicit(e) => Ok((st.0, st.1.push(explicit_view(e)))),
            RawExpectationItem::Generator(g) => match spec_paths(w, cfg, g.path@, n, "path"@) {
                Err(s) => Err(s),
                Ok(files) => gen_files(w, g, n, files, 0, st),
            },
            RawExpectationItem::Included(inc) => match spec_paths(w, cfg, inc.included@, n, inclusion_key()) {
                Err(s) => Err(s),
                Ok(files) => include_files(w, files, 0, stack, st),
            },
        };
        match next {
            Err(s) => Err(s),
            Ok(st2) => exp_items(w, cfg, items, i + 1, stack, st2),
        }
    }
}

/// The files `files[j..]` brought in, each with its own items.
pub open spec fn include_files(w: ExpansionWorld, files: Seq<Seq<char>>, j: int, stack: Seq<Seq<char>>, st: ExpansionState) -> Result<ExpansionState, StopView>
    decreases unstacked(w.items@, stack, w.items@.len() as int), 0int, files.len() - j,
{
    if j < 0 || j >= files.len() {
        Ok(st)
    } else {
        let f = files[j];
        if stack.contains(f) {
            Err(StopView::Failed(recursion_message(f)))
        } else {
            match spec_content(w, f) {
                Err(s) => Err(s),
                Ok(_) => match items_index(w.items@, f, 0) {
                    None => Err(StopView::Needs(NeedView::Items(f))),
                    Some(k) => match w.items@[k].items {
                        Err(m) => Err(StopView::Failed(m@)),
                        Ok(its) => {
                            proof {
                                lemma_items_index(w.items@, f, 0);
                                lemma_unstacked_push(w.items@, stack, f, k, w.items@.len() as int);
                            }
                            match exp_items(w, f, its@, 0, stack.push(f), st) {
                                Err(s) => Err(s),
                                Ok(st2) => include_files(w, files, j + 1, stack, st2),
                            }
                        },
                    },
                },
            }
        }
    }
}


fn find_paths(w: &ExpansionWorld, cfg: &str, pat: &str) -> (r: Option<usize>)
    ensures
        match r {
            None => paths_index(w.paths@, cfg@, pat@, 0) is None,
            Some(k) => paths_index(w.paths@, cfg@, pat@, 0) == Some(k as int),
        },
{
    let mut i: usize = 0;
    while i < w.paths.len()
        invariant
            i <= w.paths.len(),
            paths_index(w.paths@, cfg@, pat@, 0) == paths_index(w.paths@, cfg@, pat@, i as int),
        decreases w.paths.len() - i,
    {
        if str_eq(w.paths[i].config_path.as_str(), cfg) && str_eq(w.paths[i].pattern.as_str(), pat) {
            return Some(i);
        }
        i += 1;
    }
    None
}

fn find_content(w: &ExpansionWorld, f: &str) -> (r: Option<usize>)
    ensures
        match r {
            None => content_index(w.contents@, f@, 0) is None,
            Some(k) => content_index(w.contents@, f@, 0) == Some(k as int),
        },
{
    let mut i: usize = 0;
    while i < w.contents.len()
        invariant
            i <= w.contents.len(),
            content_index(w.contents@, f@, 0) == content_index(w.contents@, f@, i as int),
        decreases w.contents.len() - i,
    {
        if str_eq(w.contents[i].file.as_str(), f) {
            return Some(i);
        }
        i += 1;
    }
    None
}

fn find_items(w: &ExpansionWorld, f: &str) -> (r: Option<usize>)
    ensures
        match r {
            None => items_index(w.items@, f@, 0) is None,
            Some(k) => items_index(w.items@, f@, 0) == Some(k as int),
        },
{
    let mut i: usize = 0;
    while i < w.items.len()
        invariant
            i <= w.items.len(),
            items_index(w.items@, f@, 0) == items_index(w.items@, f@, i as int),
        decreases w.items.len() - i,
    {
        if str_eq(w.items[i].file.as_str(), f) {
            return Some(i);
        }
        i += 1;
    }
    None
}

fn contains_string(v: &Vec<String>, s: &str) -> (r: bool)
    ensures
        r == strings_view(v@).contains(s@),
{
    let mut i: usize = 0;
    while i < v.len()
        invariant
            i <= v.len(),
            forall|k: int| 0 <= k < i ==> v@[k]@ != s@,
        decreases v.len() - i,
    {
        if str_eq(v[i].as_str(), s) {
            assert(strings_view(v@)[i as int] == s@);
            return true;
        }
        i += 1;
    }
    proof {
        if strings_view(v@).contains(s@) {
            let k = choose|k: int| 0 <= k < strings_view(v@).len() && strings_view(v@)[k] == s@;
            assert(v@[k]@ == s@);
        }
    }
    false
}

/// The content of file `f`, where the world holds it.
fn read_expanded_file(w: &ExpansionWorld, f: &str) -> (r: Result<String, ExpansionStop>)
    ensures
        match spec_content(*w, f@) {
            Ok(c) => r matches Ok(x) && x@ == c,
            Err(s) => r matches Err(e) && e@ == s,
        },
{
    proof {
        lemma_content_index(w.contents@, f@, 0);
    }
    match find_content(w, f) {
        None => {
            let r = ExpansionStop::Needs(ExpansionNeed::Content { file: String::from_str(f) });
            assert(r@ == StopView::Needs(NeedView::Content(f@)));
            Err(r)
        },
        Some(k) => {
            assert(content_index(w.contents@, f@, 0) == Some(k as int));
            match &w.contents[k].content {
                Ok(c) => Ok(c.clone()),
                Err(m) => {
                    let r = ExpansionStop::Failed(m.clone());
                    assert(r@ == StopView::Failed(m@));
                    Err(r)
                },
            }
        },
    }
}

/// The state of an expansion: the files that generators expanded so far and the
/// expectations produced so far.
pub struct RawExpectationExpansion {
    pub expanded_paths: Vec<String>,
    pub expectations: Vec<Expectation>,
}

impl RawExpectationExpansion {
    pub open spec fn state(&self) -> ExpansionState {
        (strings_view(self.expanded_paths@), expectations_view(self.expectations@))
    }

    /// The files that expectation number `item_number` expands `path` to.
    pub fn expand_paths(&self, w: &ExpansionWorld, config_path: &str, path: &str, item_number: usize, label: &str) -> (r: Result<Vec<String>, ExpansionStop>)
        ensures
            match spec_paths(*w, config_path@, path@, item_number as int, label@) {
                Ok(fs) => r matches Ok(v) && strings_view(v@) == fs,
                Err(s) => r matches Err(e) && e@ == s,
            },
    {
        if !w.has_root {
            let mut m = numbered("expectation ", item_number, " uses ");
            m.append(label);
            m.append(" but config expansion has no project root");
            return Err(ExpansionStop::Failed(m));
        }
        proof {
            lemma_paths_index(w.paths@, config_path@, path@, 0);
        }
        match find_paths(w, config_path, path) {
            None => Err(
                ExpansionStop::Needs(
                    ExpansionNeed::Paths {
                        config_path: String::from_str(config_path),
                        pattern: String::from_str(path),
                    },
                ),
            ),
            Some(k) => match &w.paths[k].files {
                Ok(v) => Ok(clone_strings(v)),
                Err(m) => Err(ExpansionStop::Failed(m.clone())),
            },
        }
    }

    /// Generator item number `index + 1`: one expectation per file that its path
    /// matches, each file at most once in the whole configuration.
    #[verifier::loop_isolation(false)]
    pub fn expand_path_generator(&mut self, w: &ExpansionWorld, config_path: &str, index: usize, item: &RawGeneratorExpectation) -> (r: Result<(), ExpansionStop>)
        requires
            index < usize::MAX,
        ensures
            match spec_paths(*w, config_path@, item.path@, index + 1, "path"@) {
                Err(s) => r matches Err(e) && e@ == s,
                Ok(files) => match gen_files(*w, *item, index + 1, files, 0, old(self).state()) {
                    Ok(st) => r is Ok && final(self).state() == st,
                    Err(s) => r matches Err(e) && e@ == s,
                },
            },
    {
        let item_number = index + 1;
        let files = match self.expand_paths(w, config_path, item.path.as_str(), item_number, "path") {
            Ok(files) => files,
            Err(e) => {
                return Err(e);
            },
        };
        let ghost fv = strings_view(files@);
        let ghost st0 = self.state();
        let mut j: usize = 0;
        while j < files.len()
            invariant
                j <= files.len(),
                fv == strings_view(files@),
                gen_files(*w, *item, item_number as int, fv, 0, st0) == gen_files(
                    *w,
                    *item,
                    item_number as int,
                    fv,
                    j as int,
                    self.state(),
                ),
            decreases files.len() - j,
        {
            let file = &files[j];
            assert(fv[j as int] == file@);
            if contains_string(&self.expanded_paths, file.as_str()) {
                let mut m = numbered("expectation ", item_number, " expands duplicate spec path: ");
                m.append(file.as_str());
                return Err(ExpansionStop::Failed(m));
            }
            let content = match read_expanded_file(w, file.as_str()) {
                Ok(c) => c,
                Err(e) => {
                    return Err(e);
                },
            };
            let ghost before = self.state();
            self.expanded_paths.push(file.clone());
            let q = render_generator_question(item.q_template.as_str(), content.as_str());
            let e = Expectation {
                q,
                a: item.a.clone(),
                cooldown: clone_opt_string(&item.cooldown),
                thinking: clone_opt_string(&item.thinking),
            };
            assert(expectation_view(e) == generated_view(*item, content@));
            self.expectations.push(e);
            assert(self.state().0 =~= before.0.push(file@));
            assert(self.state().1 =~= before.1.push(generated_view(*item, content@)));
            j += 1;
        }
        Ok(())
    }

    /// Item number `index + 1` that brings in other files: each file's items are
    /// expanded in turn, read relative to that file.
    #[verifier::loop_isolation(false)]
    pub fn expand_include(&mut self, w: &ExpansionWorld, stack: &Vec<String>, config_path: &str, index: usize, item: &RawIncludedExpectation) -> (r: Result<(), ExpansionStop>)
        requires
            index < usize::MAX,
        ensures
            match spec_paths(*w, config_path@, item.included@, index + 1, inclusion_key()) {
                Err(s) => r matches Err(e) && e@ == s,
                Ok(files) => match include_files(*w, files, 0, strings_view(stack@), old(self).state()) {
                    Ok(st) => r is Ok && final(self).state() == st,
                    Err(s) => r matches Err(e) && e@ == s,
                },
            },
        decreases unstacked(w.items@, strings_view(stack@), w.items@.len() as int), 0int,
    {
        let item_number = index + 1;
        let label = inclusion_key_text();
        let files = match self.expand_paths(w, config_path, item.included.as_str(), item_number, label.as_str()) {
            Ok(files) => files,
            Err(e) => {
                return Err(e);
            },
        };
        let ghost fv = strings_view(files@);
        let ghost sv = strings_view(stack@);
        let ghost st0 = self.state();
        let mut j: usize = 0;
        while j < files.len()
            invariant
                j <= files.len(),
                fv == strings_view(files@),
                sv == strings_view(stack@),
                include_files(*w, fv, 0, sv, st0) == include_files(*w, fv, j as int, sv, self.state()),
            decreases files.len() - j,
        {
            let file = &files[j];
            assert(fv[j as int] == file@);
            if contains_string(stack, file.as_str()) {
                let mut m = String::from_str("recursive expectation ");
                m.append(label.as_str());
                m.append(": ");
                m.append(file.as_str());
                return Err(ExpansionStop::Failed(m));
            }
            match read_expanded_file(w, file.as_str()) {
                Ok(_) => {},
                Err(e) => {
                    return Err(e);
                },
            }
            proof {
                lemma_items_index(w.items@, file@, 0);
            }
            let k = match find_items(w, file.as_str()) {
                Some(k) => k,
                None => {
                    return Err(ExpansionStop::Needs(ExpansionNeed::Items { file: file.clone() }));
                },
            };
            match &w.items[k].items {
                Err(m) => {
                    return Err(ExpansionStop::Failed(m.clone()));
                },
                Ok(included) => {
                    let mut inner = clone_strings(stack);
                    inner.push(file.clone());
                    proof {
                        assert(strings_view(inner@) =~= sv.push(file@));
                        lemma_unstacked_push(w.items@, sv, file@, k as int, w.items@.len() as int);
                    }
                    match self.expand_items(w, &inner, file.as_str(), included) {
                        Ok(()) => {},
                        Err(e) => {
                            return Err(e);
                        },
                    }
                },
            }
            j += 1;
        }
        Ok(())
    }

    /// The items of configuration file `config_path`, with the files on `stack`
    /// being brought in.
    #[verifier::loop_isolation(false)]
    pub fn expand_items(&mut self, w: &ExpansionWorld, stack: &Vec<String>, config_path: &str, items: &Vec<RawExpectationItem>) -> (r: Result<(), ExpansionStop>)
        ensures
            match exp_items(*w, config_path@, items@, 0, strings_view(stack@), old(self).state()) {
                Ok(st) => r is Ok && final(self).state() == st,
                Err(s) => r matches Err(e) && e@ == s,
            },
        decreases unstacked(w.items@, strings_view(stack@), w.items@.len() as int), 1int,
    {
        let ghost sv = strings_view(stack@);
        let ghost st0 = self.state();
        let mut i: usize = 0;
        while i < items.len()
            invariant
                i <= items.len(),
                sv == strings_view(stack@),
                exp_items(*w, config_path@, items@, 0, sv, st0) == exp_items(
                    *w,
                    config_path@,
                    items@,
                    i as int,
                    sv,
                    self.state(),
                ),
            decreases items.len() - i,
        {
            match &items[i] {
                RawExpectationItem::Explicit(e) => {
                    let ghost before = self.state();
                    let x = Expectation {
                        q: e.q.clone(),
                        a: e.a.clone(),
                        cooldown: clone_opt_string(&e.cooldown),
                        thinking: clone_opt_string(&e.thinking),
                    };
                    self.expectations.push(x);
                    assert(self.state().1 =~= before.1.push(explicit_view(*e)));
                    assert(self.state().0 =~= before.0);
                },
                RawExpectationItem::Generator(g) => {
                    match self.expand_path_generator(w, config_path, i, g) {
                        Ok(()) => {},
                        Err(e) => {
                            return Err(e);
                        },
                    }
                },
                RawExpectationItem::Included(inc) => {
                    match self.expand_include(w, stack, config_path, i, inc) {
                        Ok(()) => {},
                        Err(e) => {
                            return Err(e);
                        },
                    }
                },
            }
            i += 1;
        }
        Ok(())
    }
}

/// A `check.yml` as read, before its expectations are expanded.
pub struct RawCheckConfig {
    pub version: u32,
    pub agent: AgentConfig,
    pub expectations: Vec<RawExpectationItem>,
}

/// `a` is `agent` with each ignore pattern in its normal form.
pub open spec fn agent_normalized(a: AgentConfig, agent: AgentConfig) -> bool {
    &&& a.model == agent.model
    &&& a.thinking == agent.thinking
    &&& a.instructions == agent.instructions
    &&& a.plugins == agent.plugins
    &&& a.ignore@.len() == agent.ignore@.len()
    &&& forall|k: int|
        0 <= k < a.ignore@.len() ==> ignore_pattern_spec(agent.ignore@[k]@) == Ok::<
            Seq<char>,
            Seq<char>,
        >(#[trigger] a.ignore@[k]@)
}

/// The expansion of a whole configuration read from `cfg`.
pub open spec fn config_expansion(w: ExpansionWorld, cfg: Seq<char>, raw: RawCheckConfig) -> Result<ExpansionState, StopView> {
    exp_items(w, cfg, raw.expectations@, 0, Seq::empty(), (Seq::empty(), Seq::empty()))
}

/// `c` is `raw` with its expectations expanded to `st` and its agent normalised.
pub open spec fn expanded_config(c: CheckConfig, raw: RawCheckConfig, st: ExpansionState) -> bool {
    &&& c.version == raw.version
    &&& agent_normalized(c.agent, raw.agent)
    &&& expectations_view(c.expectations@) == st.1
}

/// Expands the expectations of `raw`, read from `config_path`, and normalises its
/// agent settings.
pub fn expand_raw_check_config(w: &ExpansionWorld, config_path: &str, raw: RawCheckConfig) -> (r: Result<CheckConfig, ExpansionStop>)
    ensures
        match config_expansion(*w, config_path@, raw) {
            Err(s) => r matches Err(e) && e@ == s,
            Ok(st) => match first_ignore_problem(raw.agent.ignore@, 0) {
                Some(m) => r matches Err(e) && e@ == StopView::Failed(m),
                None => r matches Ok(c) && expanded_config(c, raw, st),
            },
        },
{
    let mut expansion = RawExpectationExpansion { expanded_paths: Vec::new(), expectations: Vec::new() };
    let stack: Vec<String> = Vec::new();
    proof {
        assert(expansion.state().0 =~= Seq::<Seq<char>>::empty());
        assert(expansion.state().1 =~= Seq::<ExpectationView>::empty());
        assert(strings_view(stack@) =~= Seq::<Seq<char>>::empty());
    }
    match expansion.expand_items(w, &stack, config_path, &raw.expectations) {
        Ok(()) => {},
        Err(e) => {
            return Err(e);
        },
    }
    let ghost st = expansion.state();
    let agent = match normalize_agent_config(raw.agent) {
        Ok(a) => a,
        Err(m) => {
            return Err(ExpansionStop::Failed(m));
        },
    };
    let c = CheckConfig { version: raw.version, agent, expectations: expansion.expectations };
    assert(expectations_view(c.expectations@) == st.1);
    Ok(c)
}

/// Loads a configuration: `parsed` is the file read as YAML (or why it could not be),
/// whose expectations are then expanded and the result checked.
pub fn parse_check_config_content_with_root_and_source(w: &ExpansionWorld, config_path: &str, parsed: Result<RawCheckConfig, String>) -> (r: Result<CheckConfig, ExpansionStop>)
    ensures
        match parsed {
            Err(m) => r matches Err(e) && e@ == StopView::Failed(m@),
            Ok(raw) => match config_expansion(*w, config_path@, raw) {
                Err(s) => r matches Err(e) && e@ == s,
                Ok(st) => match first_ignore_problem(raw.agent.ignore@, 0) {
                    Some(m) => r matches Err(e) && e@ == StopView::Failed(m),
                    None => match r {
                        Ok(c) => expanded_config(c, raw, st) && config_error(c) is None,
                        Err(e) => exists|c: CheckConfig|
                            expanded_config(c, raw, st) && (config_error(c) matches Some(m)
                                && e@ == StopView::Failed(m)),
                    },
                },
            },
        },
{
    let raw = match parsed {
        Ok(raw) => raw,
        Err(m) => {
            return Err(ExpansionStop::Failed(m));
        },
    };
    let ghost raw0 = raw;
    let config = match expand_raw_check_config(w, config_path, raw) {
        Ok(c) => c,
        Err(e) => {
            return Err(e);
        },
    };
    match validate_check_config(&config) {
        Ok(()) => Ok(config),
        Err(m) => {
            let ghost c = config;
            assert(expanded_config(c, raw0, config_expansion(*w, config_path@, raw0)->Ok_0));
            Err(ExpansionStop::Failed(m))
        },
    }
}

proof fn lemma_gen_files_distinct(w: ExpansionWorld, g: RawGeneratorExpectation, n: int, files: Seq<Seq<char>>, j: int, st: ExpansionState)
    requires
        st.0.no_duplicates(),
    ensures
        gen_files(w, g, n, files, j, st) matches Ok(st2) ==> st2.0.no_duplicates(),
    decreases files.len() - j,
{
    if 0 <= j < files.len() {
        let f = files[j];
        if !st.0.contains(f) {
            if let Ok(c) = spec_content(w, f) {
                let next = (st.0.push(f), st.1.push(generated_view(g, c)));
                assert(next.0.no_duplicates()) by {
                    assert forall|a: int, b: int| 0 <= a < b < next.0.len() implies next.0[a] != next.0[b] by {
                        if b == st.0.len() {
                            assert(st.0[a] == next.0[a]);
                        }
                    }
                }
                lemma_gen_files_distinct(w, g, n, files, j + 1, next);
            }
        }
    }
}

proof fn lemma_exp_items_distinct(w: ExpansionWorld, cfg: Seq<char>, items: Seq<RawExpectationItem>, i: int, stack: Seq<Seq<char>>, st: ExpansionState)
    requires
        st.0.no_duplicates(),
    ensures
        exp_items(w, cfg, items, i, stack, st) matches Ok(st2) ==> st2.0.no_duplicates(),
    decreases unstacked(w.items@, stack, w.items@.len() as int), 1int, items.len() - i,
{
    if 0 <= i < items.len() {
        let n = i + 1;
        match items[i] {
            RawExpectationItem::Explicit(e) => {
                lemma_exp_items_distinct(w, cfg, items, i + 1, stack, (st.0, st.1.push(explicit_view(e))));
            },
            RawExpectationItem::Generator(g) => {
                if let Ok(files) = spec_paths(w, cfg, g.path@, n, "path"@) {
                    lemma_gen_files_distinct(w, g, n, files, 0, st);
                    if let Ok(st2) = gen_files(w, g, n, files, 0, st) {
                        lemma_exp_items_distinct(w, cfg, items, i + 1, stack, st2);
                    }
                }
            },
            RawExpectationItem::Included(inc) => {
                if let Ok(files) = spec_paths(w, cfg, inc.included@, n, inclusion_key()) {
                    lemma_include_files_distinct(w, files, 0, stack, st);
                    if let Ok(st2) = include_files(w, files, 0, stack, st) {
                        lemma_exp_items_distinct(w, cfg, items, i + 1, stack, st2);
                    }
                }
            },
        }
    }
}

proof fn lemma_include_files_distinct(w: ExpansionWorld, files: Seq<Seq<char>>, j: int, stack: Seq<Seq<char>>, st: ExpansionState)
    requires
        st.0.no_duplicates(),
    ensures
        include_files(w, files, j, stack, st) matches Ok(st2) ==> st2.0.no_duplicates(),
    decreases unstacked(w.items@, stack, w.items@.len() as int), 0int, files.len() - j,
{
    if 0 <= j < files.len() {
        let f = files[j];
        if !stack.contains(f) {
            if let Ok(_) = spec_content(w, f) {
                if let Some(k) = items_index(w.items@, f, 0) {
                    if let Ok(its) = w.items@[k].items {
                        lemma_items_index(w.items@, f, 0);
                        lemma_unstacked_push(w.items@, stack, f, k, w.items@.len() as int);
                        lemma_exp_items_distinct(w, f, its@, 0, stack.push(f), st);
                        if let Ok(st2) = exp_items(w, f, its@, 0, stack.push(f), st) {
                            lemma_include_files_distinct(w, files, j + 1, stack, st2);
                        }
                    }
                }
            }
        }
    }
}

/// Each spec file is expanded by a generator at most once in a whole
/// configuration: the expanded paths of a finished expansion are distinct.
pub proof fn law_expanded_paths_are_distinct(w: ExpansionWorld, cfg: Seq<char>, raw: RawCheckConfig)
    ensures
        config_expansion(w, cfg, raw) matches Ok(st) ==> st.0.no_duplicates(),
{
    let st0: ExpansionState = (Seq::empty(), Seq::empty());
    lemma_exp_items_distinct(w, cfg, raw.expectations@, 0, Seq::empty(), st0);
}

} // verus!
