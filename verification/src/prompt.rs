//! The evaluator's developer instructions: a template whose placeholders are
//! replaced, one after another, by the response format, the scope, the answer
//! policy and the project's own policy.

use vstd::prelude::*;
use crate::output::{compact_json_string_array, json_string_array, string_seq_views};
use crate::response::custom_agent_instruction_block;
use crate::text::{
    chars_of, is_ws, is_ws_char, lemma_trim_end_skip, push_char, string_from_chars, trim_end_spec, trim_spec,
};

verus! {

/// `s` with every occurrence of `p` replaced by `w`, left to right and without
/// overlap (`str::replace`); an empty `p` matches before each character and at
/// the end.
pub open spec fn replace_spec(s: Seq<char>, p: Seq<char>, w: Seq<char>) -> Seq<char>
    decreases s.len(),
{
    if p.len() == 0 {
        if s.len() == 0 {
            w
        } else {
            w + seq![s[0]] + replace_spec(s.drop_first(), p, w)
        }
    } else if s.len() < p.len() {
        s
    } else if s.take(p.len() as int) == p {
        w + replace_spec(s.skip(p.len() as int), p, w)
    } else {
        seq![s[0]] + replace_spec(s.drop_first(), p, w)
    }
}

/// Whether `p` occurs in `v` at `i`.
pub(crate) fn chars_match_at(v: &Vec<char>, i: usize, p: &Vec<char>) -> (r: bool)
    requires
        i <= v@.len(),
    ensures
        r == (p@.len() <= v@.len() - i && v@.skip(i as int).take(p@.len() as int) == p@),
{
    if p.len() > v.len() - i {
        return false;
    }
    let n = v.len();
    let mut k: usize = 0;
    while k < p.len()
        invariant
            n == v@.len(),
            i <= v@.len(),
            p@.len() <= v@.len() - i,
            k <= p@.len(),
            forall|j: int| 0 <= j < k ==> v@[i + j] == p@[j],
        decreases p.len() - k,
    {
        if v[i + k] != p[k] {
            assert(v@.skip(i as int).take(p@.len() as int)[k as int] == v@[i + k]);
            return false;
        }
        k += 1;
    }
    assert(v@.skip(i as int).take(p@.len() as int) =~= p@);
    true
}

/// `s.replace(pattern, with)`.
pub fn replace_all(s: &str, pattern: &str, with: &str) -> (r: String)
    ensures
        r@ == replace_spec(s@, pattern@, with@),
{
    let v = chars_of(s);
    let p = chars_of(pattern);
    let mut out = String::new();
    let mut i: usize = 0;
    assert(v@.skip(0) =~= v@);
    assert(out@ + replace_spec(v@, p@, with@) =~= replace_spec(v@, p@, with@));
    if p.len() == 0 {
        while i < v.len()
            invariant
                i <= v@.len(),
                p@.len() == 0,
                out@ + replace_spec(v@.skip(i as int), p@, with@) == replace_spec(v@, p@, with@),
            decreases v.len() - i,
        {
            let ghost rest = v@.skip(i as int);
            assert(rest.drop_first() =~= v@.skip(i + 1));
            assert(rest[0] == v@[i as int]);
            let ghost before = out@;
            out.append(with);
            push_char(&mut out, v[i]);
            assert(out@ == before + with@ + seq![v@[i as int]]);
            assert(out@ + replace_spec(v@.skip(i + 1), p@, with@) =~= before + replace_spec(rest, p@, with@));
            i += 1;
        }
        assert(v@.skip(i as int) =~= Seq::<char>::empty());
        out.append(with);
        return out;
    }
    while i < v.len()
        invariant
            i <= v@.len(),
            p@.len() > 0,
            out@ + replace_spec(v@.skip(i as int), p@, with@) == replace_spec(v@, p@, with@),
        decreases v.len() - i,
    {
        let ghost rest = v@.skip(i as int);
        let ghost before = out@;
        if chars_match_at(&v, i, &p) {
            assert(rest.skip(p@.len() as int) =~= v@.skip(i + p@.len()));
            out.append(with);
            assert(out@ + replace_spec(v@.skip(i + p@.len()), p@, with@) =~= before + replace_spec(rest, p@, with@));
            i += p.len();
        } else {
            assert(rest.drop_first() =~= v@.skip(i + 1));
            assert(rest[0] == v@[i as int]);
            push_char(&mut out, v[i]);
            proof {
                if rest.len() < p@.len() {
                    assert(replace_spec(rest.drop_first(), p@, with@) == rest.drop_first());
                    assert(seq![rest[0]] + rest.drop_first() =~= rest);
                }
            }
            assert(out@ + replace_spec(v@.skip(i + 1), p@, with@) =~= before + replace_spec(rest, p@, with@));
            i += 1;
        }
    }
    assert(v@.skip(i as int) =~= Seq::<char>::empty());
    assert(out@ + Seq::<char>::empty() =~= out@);
    out
}

/// `s.trim_end()` as a string.
pub fn trim_end_str(s: &str) -> (r: String)
    ensures
        r@ == trim_end_spec(s@),
{
    let v = chars_of(s);
    let mut end: usize = v.len();
    while end > 0 && is_ws_char(v[end - 1])
        invariant
            end <= v@.len(),
            forall|j: int| end <= j < v@.len() ==> is_ws(#[trigger] v@[j]),
        decreases end,
    {
        end -= 1;
    }
    proof {
        lemma_trim_end_skip(v@, end as int);
        let u = v@.subrange(0, end as int);
        if u.len() > 0 {
            assert(u.last() == v@[end - 1]);
        }
    }
    string_from_chars(&v, 0, end)
}

pub open spec fn pair_views(v: Seq<(String, String)>) -> Seq<(Seq<char>, Seq<char>)> {
    Seq::new(v.len(), |i: int| (v[i].0@, v[i].1@))
}

/// The template with each placeholder replaced by its value, in the order given.
pub open spec fn render_spec(template: Seq<char>, replacements: Seq<(Seq<char>, Seq<char>)>) -> Seq<char>
    decreases replacements.len(),
{
    if replacements.len() == 0 {
        template
    } else {
        replace_spec(
            render_spec(template, replacements.drop_last()),
            replacements.last().0,
            replacements.last().1,
        )
    }
}

pub fn render_instruction_template(template: &str, replacements: &Vec<(String, String)>) -> (r: String)
    ensures
        r@ == render_spec(template@, pair_views(replacements@)),
{
    let mut rendered = String::from_str(template);
    let mut i: usize = 0;
    while i < replacements.len()
        invariant
            i <= replacements@.len(),
            rendered@ == render_spec(template@, pair_views(replacements@).take(i as int)),
        decreases replacements.len() - i,
    {
        assert(pair_views(replacements@).take(i + 1).drop_last() =~= pair_views(replacements@).take(i as int));
        let next = replace_all(rendered.as_str(), replacements[i].0.as_str(), replacements[i].1.as_str());
        rendered = next;
        i += 1;
    }
    assert(pair_views(replacements@).take(replacements.len() as int) =~= pair_views(replacements@));
    rendered
}

/// The project's policy block: nothing for blank instructions, else a heading line
/// and the trimmed instructions.
pub open spec fn agent_block_spec(instructions: Seq<char>) -> Seq<char> {
    if trim_spec(instructions).len() == 0 {
        Seq::empty()
    } else {
        "Project-specific evaluator policy loaded from check.yml:\n"@ + trim_spec(instructions)
    }
}

/// The placeholders of the developer instructions with their values.
pub open spec fn instruction_replacements(
    response_format: Seq<char>,
    scope: Seq<Seq<char>>,
    answer_policy: Seq<char>,
    agent_instructions: Seq<char>,
) -> Seq<(Seq<char>, Seq<char>)> {
    seq![
        ("{{response_format}}"@, response_format),
        ("{{scope}}"@, json_string_array(scope)),
        ("{{answer_policy}}"@, trim_end_spec(answer_policy)),
        ("{{agent_instructions}}"@, agent_block_spec(agent_instructions)),
    ]
}

/// The developer instructions of an evaluator thread under `scope`: the template,
/// its trailing whitespace removed, with the response format, the scope as compact
/// JSON, the answer policy (trailing whitespace removed) and the project's policy
/// block put in for their placeholders.
pub fn developer_instructions(
    template: &str,
    response_format: &str,
    answer_policy: &str,
    agent_instructions: &str,
    scope: &Vec<String>,
) -> (r: String)
    ensures
        r@ == render_spec(
            trim_end_spec(template@),
            instruction_replacements(response_format@, string_seq_views(scope@), answer_policy@, agent_instructions@),
        ),
{
    let scope_json = compact_json_string_array(scope);
    let policy = trim_end_str(answer_policy);
    let block = custom_agent_instruction_block(agent_instructions);
    let mut replacements: Vec<(String, String)> = Vec::new();
    replacements.push((String::from_str("{{response_format}}"), String::from_str(response_format)));
    replacements.push((String::from_str("{{scope}}"), scope_json));
    replacements.push((String::from_str("{{answer_policy}}"), policy));
    replacements.push((String::from_str("{{agent_instructions}}"), block));
    proof {
        if trim_spec(agent_instructions@).len() == 0 {
            assert(block@ =~= Seq::<char>::empty());
        }
        assert(pair_views(replacements@) =~= instruction_replacements(
            response_format@,
            string_seq_views(scope@),
            answer_policy@,
            agent_instructions@,
        ));
    }
    let template_end = trim_end_str(template);
    render_instruction_template(template_end.as_str(), &replacements)
}

} // verus!
