//! The names that the tool goes by.
//!
//! All of them come from one: the prefix of the environment variables that the
//! tool reads. In lower case and with hyphens it is the tool's own name, whose
//! first word is the agent that runs inside the machine.

use vstd::prelude::*;
use vstd::string::*;

use crate::text::{
    any_of, chars_of, head, lemma_find_is, plain_line, string_of, text_before, Pattern,
};

verus! {

/// The prefix of the environment variables that the tool reads.
pub const ENV_PREFIX: &'static str = "CLAUDE_SANDBOX";

/// An ASCII capital letter in lower case; any other character as it is.
pub open spec fn ascii_lower(c: char) -> char {
    if 'A' <= c <= 'Z' {
        ((c as u8) + 32) as u8 as char
    } else {
        c
    }
}

/// An ASCII capital letter in lower case; any other character as it is.
pub fn lower(c: char) -> (r: char)
    ensures
        r == ascii_lower(c),
{
    if 'A' <= c && c <= 'Z' {
        (c as u8 + 32) as char
    } else {
        c
    }
}

/// A character of an environment prefix as it stands in the tool's name.
pub open spec fn kebab_char(c: char) -> char {
    if c == '_' {
        '-'
    } else {
        ascii_lower(c)
    }
}

/// The name of the tool.
pub open spec fn tool() -> Seq<char> {
    Seq::new(ENV_PREFIX@.len(), |i: int| kebab_char(ENV_PREFIX@[i]))
}

/// The name of the agent: the first word of the tool's name.
pub open spec fn agent() -> Seq<char> {
    head(tool(), Pattern::Is('-'))
}

/// The name of the agent in capitals.
pub open spec fn agent_caps() -> Seq<char> {
    head(ENV_PREFIX@, Pattern::Is('_'))
}

/// The name of the agent with a capital letter, as prose has it.
pub open spec fn agent_title() -> Seq<char> {
    agent_caps().take(1) + agent().skip(1)
}

/// What the names are: the agent's is the first six letters of the prefix, in capitals or
/// in lower case, and the tool's is the agent's with `-sandbox` behind it. That is a word of
/// fourteen characters: lower-case letters and hyphens, with a letter at either end.
pub proof fn lemma_tool()
    ensures
        tool().len() == 14,
        forall|i: int| 0 <= i < 14 ==> 'a' <= #[trigger] tool()[i] <= 'z' || tool()[i] == '-',
        'a' <= tool()[0] <= 'z',
        'a' <= tool()[13] <= 'z',
        agent_caps().len() == 6,
        agent().len() == 6,
        agent_caps() == "CLAUDE_SANDBOX"@.take(6),
        agent() == agent_caps().map_values(|c: char| ascii_lower(c)),
        tool() == agent() + "-sandbox"@,
{
    reveal_strlit("CLAUDE_SANDBOX");
    reveal_strlit("-sandbox");
    lemma_find_is(ENV_PREFIX@, Pattern::Is('_'), 6);
    lemma_find_is(tool(), Pattern::Is('-'), 6);
    assert(agent() =~= agent_caps().map_values(|c: char| ascii_lower(c)));
    assert(tool() =~= agent() + "-sandbox"@);
}

/// The name of the tool.
pub fn tool_name() -> (r: String)
    ensures
        r@ == tool(),
{
    let v = chars_of(ENV_PREFIX);
    let mut out = String::new();
    let mut i: usize = 0;
    while i < v.len()
        invariant
            v@ == ENV_PREFIX@,
            i <= v@.len(),
            out@ == tool().take(i as int),
        decreases v@.len() - i,
    {
        out.push(if v[i] == '_' {
            '-'
        } else {
            lower(v[i])
        });
        i += 1;
    }
    assert(tool().take(i as int) =~= tool());
    out
}

/// The name of the agent.
pub fn agent_name() -> (r: String)
    ensures
        r@ == agent(),
{
    text_before(tool_name().as_str(), Pattern::Is('-'))
}

/// The name of the agent in capitals.
pub fn agent_caps_name() -> (r: String)
    ensures
        r@ == agent_caps(),
{
    text_before(ENV_PREFIX, Pattern::Is('_'))
}

/// The name of the agent with a capital letter.
pub fn agent_title_name() -> (r: String)
    ensures
        r@ == agent_title(),
{
    proof {
        lemma_tool();
    }
    let caps = chars_of(agent_caps_name().as_str());
    let low = chars_of(agent_name().as_str());
    let first = string_of(&caps, 0, 1);
    let rest = string_of(&low, 1, low.len());
    assert(first@ =~= agent_caps().take(1));
    assert(rest@ =~= agent().skip(1));
    first.concat(rest.as_str())
}

/// What a character of a message template stands for: `@` for the tool, `%` for
/// the agent, `&` for the agent with a capital letter, `^` for the agent in
/// capitals, and any other character for itself.
pub open spec fn expand_char(c: char) -> Seq<char> {
    if c == '@' {
        tool()
    } else if c == '%' {
        agent()
    } else if c == '&' {
        agent_title()
    } else if c == '^' {
        agent_caps()
    } else {
        seq![c]
    }
}

/// A message template with the names filled in.
pub open spec fn expand(template: Seq<char>) -> Seq<char>
    decreases template.len(),
{
    if template.len() == 0 {
        seq![]
    } else {
        expand(template.drop_last()) + expand_char(template.last())
    }
}

/// A message template with the names filled in.
pub fn expanded(template: &str) -> (r: String)
    ensures
        r@ == expand(template@),
{
    let v = chars_of(template);
    let mut out = String::new();
    let mut i: usize = 0;
    while i < v.len()
        invariant
            v@ == template@,
            i <= v@.len(),
            out@ == expand(template@.take(i as int)),
        decreases v@.len() - i,
    {
        let c = v[i];
        if c == '@' {
            out.append(tool_name().as_str());
        } else if c == '%' {
            out.append(agent_name().as_str());
        } else if c == '&' {
            out.append(agent_title_name().as_str());
        } else if c == '^' {
            out.append(agent_caps_name().as_str());
        } else {
            out.push(c);
        }
        proof {
            assert(template@.take(i + 1).drop_last() =~= template@.take(i as int));
            assert(out@ =~= expand(template@.take(i as int)) + expand_char(c));
        }
        i += 1;
    }
    assert(template@.take(i as int) =~= template@);
    out
}

/// Templates one after the other expand to their expansions one after the other.
pub proof fn lemma_expand_concat(a: Seq<char>, b: Seq<char>)
    ensures
        expand(a + b) == expand(a) + expand(b),
    decreases b.len(),
{
    if b.len() == 0 {
        assert(a + b =~= a);
        assert(expand(a) + expand(b) =~= expand(a));
    } else {
        lemma_expand_concat(a, b.drop_last());
        assert((a + b).drop_last() =~= a + b.drop_last());
        assert(expand(a + b) =~= expand(a) + expand(b));
    }
}

/// A template whose characters all stand for themselves expands to itself.
pub proof fn lemma_expand_itself(template: Seq<char>)
    requires
        forall|k: int|
            0 <= k < template.len() ==> expand_char(#[trigger] template[k]) == seq![template[k]],
    ensures
        expand(template) == template,
    decreases template.len(),
{
    if template.len() > 0 {
        let front = template.drop_last();
        assert forall|k: int| 0 <= k < front.len() implies expand_char(#[trigger] front[k])
            == seq![front[k]] by {
            assert(front[k] == template[k]);
        }
        lemma_expand_itself(front);
        assert(expand(template) =~= template);
    }
}

/// A template with one name in it expands to what stands around the name, with the name
/// in its place.
pub proof fn lemma_expand_around(before: Seq<char>, name: char, after: Seq<char>)
    requires
        forall|k: int|
            0 <= k < before.len() ==> expand_char(#[trigger] before[k]) == seq![before[k]],
        forall|k: int|
            0 <= k < after.len() ==> expand_char(#[trigger] after[k]) == seq![after[k]],
    ensures
        expand(before + seq![name] + after) == before + expand_char(name) + after,
{
    lemma_expand_itself(before);
    lemma_expand_itself(after);
    lemma_expand_concat(before + seq![name], after);
    let t = before + seq![name];
    assert(t.drop_last() =~= before);
    assert(expand(t) == expand(t.drop_last()) + expand_char(t.last()));
}

/// A template that starts with a character that stands for itself expands to a text
/// that starts with it.
pub proof fn lemma_expand_first(template: Seq<char>)
    requires
        template.len() > 0,
        expand_char(template[0]) == seq![template[0]],
    ensures
        expand(template).len() > 0,
        expand(template)[0] == template[0],
    decreases template.len(),
{
    if template.len() == 1 {
        assert(template.drop_last() =~= seq![]);
        assert(expand(template.drop_last()) =~= seq![]);
    } else {
        lemma_expand_first(template.drop_last());
    }
}

/// The names hold no control characters, so that a template expands to a plain line if
/// it is one itself.
pub proof fn lemma_expand_plain(template: Seq<char>)
    requires
        plain_line(template),
    ensures
        plain_line(expand(template)),
    decreases template.len(),
{
    lemma_expand_printable(template);
}

/// A template without line feeds, with a last character that is no carriage return.
proof fn lemma_expand_printable(template: Seq<char>)
    requires
        !any_of(template, Pattern::Is('\n')),
    ensures
        !any_of(expand(template), Pattern::Is('\n')),
        template.len() > 0 && template.last() != '\r' ==> expand(template).len() > 0
            && expand(template).last() != '\r',
    decreases template.len(),
{
    if template.len() > 0 {
        let front = template.drop_last();
        assert forall|k: int| 0 <= k < front.len() implies !Pattern::Is('\n').covers(
            #[trigger] front[k],
        ) by {
            assert(front[k] == template[k]);
        }
        lemma_expand_printable(front);
        let piece = expand_char(template.last());
        lemma_piece(template.last());
        let whole = expand(template);
        let n = expand(front).len();
        assert forall|k: int| 0 <= k < whole.len() implies !Pattern::Is('\n').covers(
            #[trigger] whole[k],
        ) by {
            if k < n {
                assert(whole[k] == expand(front)[k]);
            } else {
                assert(whole[k] == piece[k - n]);
            }
        }
        assert(whole.last() == piece.last());
    }
}

/// What a character other than a line feed stands for.
proof fn lemma_piece(c: char)
    requires
        c != '\n',
    ensures
        expand_char(c).len() > 0,
        forall|k: int| 0 <= k < expand_char(c).len() ==> #[trigger] expand_char(c)[k] != '\n',
        c != '\r' ==> expand_char(c).last() != '\r',
{
    lemma_tool();
    reveal_strlit("CLAUDE_SANDBOX");
    let caps = agent_caps();
    assert(caps =~= ENV_PREFIX@.take(6)) by {
        lemma_find_is(ENV_PREFIX@, Pattern::Is('_'), 6);
    }
    assert(agent() =~= tool().take(6)) by {
        lemma_find_is(tool(), Pattern::Is('-'), 6);
    }
    assert forall|k: int| 0 <= k < caps.len() implies 'A' <= #[trigger] caps[k] <= 'Z' by {
        assert(caps[k] == ENV_PREFIX@[k]);
    }
    assert forall|k: int| 0 <= k < agent().len() implies #[trigger] agent()[k] != '\n'
        && agent()[k] != '\r' by {
        assert(agent()[k] == tool()[k]);
    }
    let title = agent_title();
    assert forall|k: int| 0 <= k < title.len() implies #[trigger] title[k] != '\n' && title[k]
        != '\r' by {
        if k == 0 {
            assert(title[k] == caps[0]);
        } else {
            assert(title[k] == agent()[k]);
        }
    }
}

/// What the marks of a template stand for, and that all else stands for itself.
pub proof fn law_placeholders(c: char)
    ensures
        expand(Seq::<char>::empty()) == Seq::<char>::empty(),
        expand(seq!['@']) == tool(),
        expand(seq!['%']) == agent(),
        expand(seq!['^']) == agent_caps(),
        expand(seq!['&']).len() == 6,
        expand(seq!['&'])[0] == agent_caps()[0],
        expand(seq!['&']).skip(1) == agent().skip(1),
        c != '@' && c != '%' && c != '^' && c != '&' ==> expand(seq![c]) == seq![c],
{
    lemma_tool();
    reveal_with_fuel(expand, 2);
    assert(seq!['@'].drop_last() =~= seq![]);
    assert(seq!['%'].drop_last() =~= seq![]);
    assert(seq!['^'].drop_last() =~= seq![]);
    assert(seq!['&'].drop_last() =~= seq![]);
    assert(seq![c].drop_last() =~= seq![]);
    assert(expand(seq!['@']) =~= tool());
    assert(expand(seq!['%']) =~= agent());
    assert(expand(seq!['^']) =~= agent_caps());
    assert(expand(seq!['&']) =~= agent_title());
    assert(agent_title().skip(1) =~= agent().skip(1));
    assert(expand(seq![c]) =~= expand_char(c));
}

/// A capital letter becomes the small letter of the same place in the alphabet; no other
/// character changes.
pub proof fn law_lower_case(c: char)
    ensures
        'A' <= c <= 'Z' ==> ascii_lower(c) as int - 'a' as int == c as int - 'A' as int,
        !('A' <= c <= 'Z') ==> ascii_lower(c) == c,
{
}

} // verus!
