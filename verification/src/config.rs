//! The check configuration (`check.yml`) as the library sees it.

use vstd::prelude::*;
use crate::text::push_char;

verus! {

/// Which models an evaluator may use, in order of preference.
pub struct ModelConfig {
    pub primary: Option<String>,
    pub fallbacks: Vec<String>,
}

/// The evaluator agent's settings.
pub struct AgentConfig {
    pub model: ModelConfig,
    pub thinking: String,
    pub instructions: String,
    pub ignore: Vec<String>,
    pub plugins: Vec<String>,
}

/// One expectation: a question and its expected answer.
pub struct Expectation {
    pub q: String,
    pub a: String,
    pub cooldown: Option<String>,
    pub thinking: Option<String>,
}

/// A fully expanded check configuration.
pub struct CheckConfig {
    pub version: u32,
    pub agent: AgentConfig,
    pub expectations: Vec<Expectation>,
}

/// An expectation item written out in `check.yml`.
pub struct RawExplicitExpectation {
    pub q: String,
    pub a: String,
    pub cooldown: Option<String>,
    pub thinking: Option<String>,
}

/// An expectation item that generates one expectation per matching file.
pub struct RawGeneratorExpectation {
    pub q_template: String,
    pub path: String,
    pub a: String,
    pub cooldown: Option<String>,
    pub thinking: Option<String>,
}

/// An expectation item that brings in the items of other files.
pub struct RawIncludedExpectation {
    pub included: String,
}

/// One item of the `expectations` list before expansion.
pub enum RawExpectationItem {
    Explicit(RawExplicitExpectation),
    Generator(RawGeneratorExpectation),
    Included(RawIncludedExpectation),
}

/// The fields an expectation item may carry, as read from the file.
pub struct RawExpectationFields {
    pub q: Option<String>,
    pub q_template: Option<String>,
    pub a: Option<String>,
    pub path: Option<String>,
    pub included: Option<String>,
    pub cooldown: Option<String>,
    pub thinking: Option<String>,
}

/// Why the fields of an expectation item do not form an item.
#[derive(Clone, Copy, Debug, PartialEq, Eq, Structural)]
pub enum RawItemProblem {
    KeyWithA,
    KeyWithQ,
    KeyWithQTemplate,
    KeyWithPath,
    BothQAndQTemplate,
    PathOnExplicit,
    MissingA,
    GeneratorMissingPath,
    GeneratorMissingQTemplate,
    MissingQ,
    MissingAll,
}

/// The shape of an expectation item.
#[derive(Clone, Copy, Debug, PartialEq, Eq, Structural)]
pub enum RawExpectationKind {
    Explicit,
    Generator,
    Included,
    Invalid(RawItemProblem),
}

/// The word naming the file-inclusion key of an expectation item.
pub open spec fn inclusion_key() -> Seq<char> {
    seq!['i', 'n', 'c', 'l', 'u', 'd', 'e']
}

/// The message shown for a problem.
pub open spec fn problem_text(p: RawItemProblem) -> Seq<char> {
    match p {
        RawItemProblem::KeyWithA => inclusion_key() + " item must not contain a"@,
        RawItemProblem::KeyWithQ => inclusion_key() + " item must not contain q"@,
        RawItemProblem::KeyWithQTemplate => inclusion_key() + " item must not contain q_template"@,
        RawItemProblem::KeyWithPath => inclusion_key() + " item must not contain path"@,
        RawItemProblem::BothQAndQTemplate => "must not contain both q and q_template"@,
        RawItemProblem::PathOnExplicit => "must not contain path on an explicit expectation"@,
        RawItemProblem::MissingA => "must contain a"@,
        RawItemProblem::GeneratorMissingPath => "generator must contain path"@,
        RawItemProblem::GeneratorMissingQTemplate => "generator must contain q_template"@,
        RawItemProblem::MissingQ => "must contain q or q_template"@,
        RawItemProblem::MissingAll => "must contain q, q_template, or "@ + inclusion_key(),
    }
}

/// The inclusion key word as a string.
pub fn inclusion_key_text() -> (r: String)
    ensures
        r@ == inclusion_key(),
{
    let mut s = String::new();
    push_char(&mut s, 'i');
    push_char(&mut s, 'n');
    push_char(&mut s, 'c');
    push_char(&mut s, 'l');
    push_char(&mut s, 'u');
    push_char(&mut s, 'd');
    push_char(&mut s, 'e');
    assert(s@ =~= inclusion_key());
    s
}

impl RawItemProblem {
    /// The message shown for this problem.
    pub fn message(self) -> (r: String)
        ensures
            r@ == problem_text(self),
    {
        match self {
            RawItemProblem::KeyWithA => {
                let mut s = inclusion_key_text();
                s.append(" item must not contain a");
                s
            },
            RawItemProblem::KeyWithQ => {
                let mut s = inclusion_key_text();
                s.append(" item must not contain q");
                s
            },
            RawItemProblem::KeyWithQTemplate => {
                let mut s = inclusion_key_text();
                s.append(" item must not contain q_template");
                s
            },
            RawItemProblem::KeyWithPath => {
                let mut s = inclusion_key_text();
                s.append(" item must not contain path");
                s
            },
            RawItemProblem::BothQAndQTemplate => String::from_str(
                "must not contain both q and q_template",
            ),
            RawItemProblem::PathOnExplicit => String::from_str(
                "must not contain path on an explicit expectation",
            ),
            RawItemProblem::MissingA => String::from_str("must contain a"),
            RawItemProblem::GeneratorMissingPath => String::from_str("generator must contain path"),
            RawItemProblem::GeneratorMissingQTemplate => String::from_str(
                "generator must contain q_template",
            ),
            RawItemProblem::MissingQ => String::from_str("must contain q or q_template"),
            RawItemProblem::MissingAll => {
                let mut s = String::from_str("must contain q, q_template, or ");
                let k = inclusion_key_text();
                s.append(k.as_str());
                s
            },
        }
    }
}

/// The problem with an item that has these fields, if any: which of `q`,
/// `q_template`, `path`, the inclusion key and `a` are present decides it; the first
/// matching rule wins.
pub open spec fn item_problem(
    q: bool,
    q_template: bool,
    path: bool,
    included: bool,
    a: bool,
) -> Option<RawItemProblem> {
    if q && !q_template && !path && !included && a {
        None
    } else if !q && q_template && path && !included && a {
        None
    } else if !q && !q_template && !path && included && !a {
        None
    } else if included && a {
        Some(RawItemProblem::KeyWithA)
    } else if q && included {
        Some(RawItemProblem::KeyWithQ)
    } else if q_template && included {
        Some(RawItemProblem::KeyWithQTemplate)
    } else if path && included {
        Some(RawItemProblem::KeyWithPath)
    } else if q && q_template {
        Some(RawItemProblem::BothQAndQTemplate)
    } else if q && path {
        Some(RawItemProblem::PathOnExplicit)
    } else if q {
        Some(RawItemProblem::MissingA)
    } else if q_template && !path {
        Some(RawItemProblem::GeneratorMissingPath)
    } else if q_template {
        Some(RawItemProblem::MissingA)
    } else if path {
        Some(RawItemProblem::GeneratorMissingQTemplate)
    } else if a {
        Some(RawItemProblem::MissingQ)
    } else {
        Some(RawItemProblem::MissingAll)
    }
}

pub open spec fn fields_problem(f: RawExpectationFields) -> Option<RawItemProblem> {
    item_problem(f.q is Some, f.q_template is Some, f.path is Some, f.included is Some, f.a is Some)
}

/// Classifies an item by the fields it carries.
pub fn raw_expectation_kind(item: &RawExpectationFields) -> (r: RawExpectationKind)
    ensures
        fields_problem(*item) matches Some(p) ==> r == RawExpectationKind::Invalid(p),
        fields_problem(*item) is None ==> (item.q is Some ==> r == RawExpectationKind::Explicit),
        fields_problem(*item) is None ==> (item.q_template is Some ==> r
            == RawExpectationKind::Generator),
        fields_problem(*item) is None ==> (item.included is Some ==> r
            == RawExpectationKind::Included),
{
    let q = item.q.is_some();
    let t = item.q_template.is_some();
    let p = item.path.is_some();
    let i = item.included.is_some();
    let a = item.a.is_some();
    if q && !t && !p && !i && a {
        RawExpectationKind::Explicit
    } else if !q && t && p && !i && a {
        RawExpectationKind::Generator
    } else if !q && !t && !p && i && !a {
        RawExpectationKind::Included
    } else if i && a {
        RawExpectationKind::Invalid(RawItemProblem::KeyWithA)
    } else if q && i {
        RawExpectationKind::Invalid(RawItemProblem::KeyWithQ)
    } else if t && i {
        RawExpectationKind::Invalid(RawItemProblem::KeyWithQTemplate)
    } else if p && i {
        RawExpectationKind::Invalid(RawItemProblem::KeyWithPath)
    } else if q && t {
        RawExpectationKind::Invalid(RawItemProblem::BothQAndQTemplate)
    } else if q && p {
        RawExpectationKind::Invalid(RawItemProblem::PathOnExplicit)
    } else if q {
        RawExpectationKind::Invalid(RawItemProblem::MissingA)
    } else if t && !p {
        RawExpectationKind::Invalid(RawItemProblem::GeneratorMissingPath)
    } else if t {
        RawExpectationKind::Invalid(RawItemProblem::MissingA)
    } else if p {
        RawExpectationKind::Invalid(RawItemProblem::GeneratorMissingQTemplate)
    } else if a {
        RawExpectationKind::Invalid(RawItemProblem::MissingQ)
    } else {
        RawExpectationKind::Invalid(RawItemProblem::MissingAll)
    }
}

impl RawExpectationItem {
    /// Builds an item from its fields, or says why the fields do not form one.
    pub fn from_fields(fields: RawExpectationFields) -> (r: Result<RawExpectationItem, RawItemProblem>)
        ensures
            fields_problem(fields) matches Some(p) ==> r == Err::<RawExpectationItem, RawItemProblem>(p),
            fields_problem(fields) is None && fields.q is Some ==> (r matches Ok(RawExpectationItem::Explicit(e))
                && fields.q == Some(e.q) && fields.a == Some(e.a) && e.cooldown == fields.cooldown
                && e.thinking == fields.thinking),
            fields_problem(fields) is None && fields.q_template is Some ==> (r matches Ok(
                RawExpectationItem::Generator(g),
            ) && fields.q_template == Some(g.q_template) && fields.path == Some(g.path)
                && fields.a == Some(g.a) && g.cooldown == fields.cooldown && g.thinking
                == fields.thinking),
            fields_problem(fields) is None && fields.included is Some ==> (r matches Ok(
                RawExpectationItem::Included(n),
            ) && fields.included == Some(n.included)),
    {
        let kind = raw_expectation_kind(&fields);
        match kind {
            RawExpectationKind::Invalid(problem) => Err(problem),
            RawExpectationKind::Explicit => match (fields.q, fields.a) {
                (Some(q), Some(a)) => Ok(
                    RawExpectationItem::Explicit(
                        RawExplicitExpectation {
                            q,
                            a,
                            cooldown: fields.cooldown,
                            thinking: fields.thinking,
                        },
                    ),
                ),
                _ => Err(RawItemProblem::MissingA),
            },
            RawExpectationKind::Generator => match (fields.q_template, fields.path, fields.a) {
                (Some(q_template), Some(path), Some(a)) => Ok(
                    RawExpectationItem::Generator(
                        RawGeneratorExpectation {
                            q_template,
                            path,
                            a,
                            cooldown: fields.cooldown,
                            thinking: fields.thinking,
                        },
                    ),
                ),
                _ => Err(RawItemProblem::MissingA),
            },
            RawExpectationKind::Included => match fields.included {
                Some(included) => Ok(RawExpectationItem::Included(RawIncludedExpectation { included })),
                None => Err(RawItemProblem::MissingAll),
            },
        }
    }
}

/// Where a configuration was read from.
#[derive(Clone, Copy, Debug, PartialEq, Eq, Structural)]
pub enum CheckConfigSource {
    Staged,
    Worktree,
}

impl CheckConfigSource {
    pub fn is_staged(self) -> (r: bool)
        ensures
            r == (self == CheckConfigSource::Staged),
    {
        match self {
            CheckConfigSource::Staged => true,
            CheckConfigSource::Worktree => false,
        }
    }
}

/// The thinking level used when `check.yml` names none.
pub fn default_thinking() -> (r: String)
    ensures
        r@ == "low"@,
{
    String::from_str("low")
}

/// Whether the agent asks for plugins.
pub fn check_config_loads_plugins(config: &CheckConfig) -> (r: bool)
    ensures
        r == (config.agent.plugins@.len() > 0),
{
    config.agent.plugins.len() > 0
}

} // verus!
