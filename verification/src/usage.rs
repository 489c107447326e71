//! Token usage as upstream responses report it, in both the OpenAI and the
//! Anthropic shape of the `usage` object, and the `data:` payloads of an SSE body.

use vstd::prelude::*;
use crate::json::{self, Json};
use crate::text;

verus! {

/// Token counts of one request and the model that served it.
#[derive(Debug)]
pub struct TokenUsage {
    pub prompt_tokens: u64,
    pub completion_tokens: u64,
    pub reasoning_tokens: u64,
    pub cached_tokens: u64,
    pub total_tokens: u64,
    pub model: String,
}

impl TokenUsage {
    /// All counts zero and an empty model name.
    pub fn new() -> (u: TokenUsage)
        ensures
            u.prompt_tokens == 0 && u.completion_tokens == 0 && u.reasoning_tokens == 0,
            u.cached_tokens == 0 && u.total_tokens == 0,
            u.model@ == Seq::<char>::empty(),
    {
        TokenUsage {
            prompt_tokens: 0,
            completion_tokens: 0,
            reasoning_tokens: 0,
            cached_tokens: 0,
            total_tokens: 0,
            model: String::new(),
        }
    }

    /// A copy with the same counts and model name.
    pub fn duplicate(&self) -> (u: TokenUsage)
        ensures
            u.prompt_tokens == self.prompt_tokens,
            u.completion_tokens == self.completion_tokens,
            u.reasoning_tokens == self.reasoning_tokens,
            u.cached_tokens == self.cached_tokens,
            u.total_tokens == self.total_tokens,
            u.model@ == self.model@,
    {
        TokenUsage {
            prompt_tokens: self.prompt_tokens,
            completion_tokens: self.completion_tokens,
            reasoning_tokens: self.reasoning_tokens,
            cached_tokens: self.cached_tokens,
            total_tokens: self.total_tokens,
            model: self.model.clone(),
        }
    }
}

impl Default for TokenUsage {
    fn default() -> (u: TokenUsage)
        ensures
            u.prompt_tokens == 0 && u.completion_tokens == 0 && u.reasoning_tokens == 0,
            u.cached_tokens == 0 && u.total_tokens == 0,
            u.model@ == Seq::<char>::empty(),
    {
        TokenUsage::new()
    }
}

/// The cached prompt tokens of a `usage` object: `prompt_tokens_details.cached_tokens`
/// (OpenAI), else `input_tokens_details.cached_tokens` (Anthropic), else 0.
pub open spec fn cached_tokens_of(u: Json) -> u64 {
    match json::nested_u64(u, "prompt_tokens_details"@, "cached_tokens"@) {
        Some(v) => v,
        None => json::unwrap_or_zero(json::nested_u64(u, "input_tokens_details"@, "cached_tokens"@)),
    }
}

/// The model name of a body: its string member `model`, or empty.
pub open spec fn model_of(body: Json) -> Seq<char> {
    match json::json_get(body, "model"@) {
        Some(m) => match json::json_as_str(m) {
            Some(s) => s,
            None => Seq::<char>::empty(),
        },
        None => Seq::<char>::empty(),
    }
}

/// `usage` carries the counts read from the `usage` object `u`.
pub open spec fn counts_from(usage: TokenUsage, u: Json) -> bool {
    &&& usage.prompt_tokens == json::unwrap_or_zero(json::field_u64(u, "prompt_tokens"@))
    &&& usage.completion_tokens == json::unwrap_or_zero(json::field_u64(u, "completion_tokens"@))
    &&& usage.total_tokens == json::unwrap_or_zero(json::field_u64(u, "total_tokens"@))
    &&& usage.reasoning_tokens == json::unwrap_or_zero(
        json::nested_u64(u, "completion_tokens_details"@, "reasoning_tokens"@),
    )
    &&& usage.cached_tokens == cached_tokens_of(u)
}

fn key(s: &str) -> (k: String)
    ensures
        k@ == s@,
{
    let v = text::chars_of(s);
    text::string_from_chars(v.as_slice())
}

fn counts(u: &Json, model: String) -> (usage: TokenUsage)
    ensures
        counts_from(usage, *u),
        usage.model == model,
{
    let prompt_tokens = json::get_u64(u, &key("prompt_tokens"));
    let completion_tokens = json::get_u64(u, &key("completion_tokens"));
    let total_tokens = json::get_u64(u, &key("total_tokens"));
    let reasoning_tokens = json::get_nested_u64(u, &key("completion_tokens_details"), &key("reasoning_tokens"));
    let cached_openai = json::get_nested_u64(u, &key("prompt_tokens_details"), &key("cached_tokens"));
    let cached_tokens: u64 = match cached_openai {
        Some(v) => v,
        None => match json::get_nested_u64(u, &key("input_tokens_details"), &key("cached_tokens")) {
            Some(v) => v,
            None => 0,
        },
    };
    TokenUsage {
        prompt_tokens: match prompt_tokens { Some(v) => v, None => 0 },
        completion_tokens: match completion_tokens { Some(v) => v, None => 0 },
        reasoning_tokens: match reasoning_tokens { Some(v) => v, None => 0 },
        cached_tokens,
        total_tokens: match total_tokens { Some(v) => v, None => 0 },
        model,
    }
}

fn model_name(body: &Json) -> (m: String)
    ensures
        m@ == model_of(*body),
{
    match body.get(&key("model")) {
        Some(v) => match v.as_str() {
            Some(s) => s.clone(),
            None => String::new(),
        },
        None => String::new(),
    }
}

/// The token usage of a response body: counts from its `usage` object (all
/// zero when it has none) and the model name from its `model` member.
pub fn extract_usage_from_response(body: &Json) -> (usage: TokenUsage)
    ensures
        usage.model@ == model_of(*body),
        json::json_get(*body, "usage"@) matches Some(u) ==> counts_from(usage, u),
        json::json_get(*body, "usage"@) is None ==> usage.prompt_tokens == 0 && usage.completion_tokens == 0
            && usage.reasoning_tokens == 0 && usage.cached_tokens == 0 && usage.total_tokens == 0,
{
    let model = model_name(body);
    match body.get(&key("usage")) {
        Some(u) => counts(u, model),
        None => TokenUsage {
            prompt_tokens: 0,
            completion_tokens: 0,
            reasoning_tokens: 0,
            cached_tokens: 0,
            total_tokens: 0,
            model,
        },
    }
}

/// The token usage of one SSE chunk: `None` without a `usage` object or when
/// its total, prompt and completion counts are all zero.
pub fn extract_usage_from_sse_chunk(data: &Json) -> (r: Option<TokenUsage>)
    ensures
        json::json_get(*data, "usage"@) is None ==> r is None,
        json::json_get(*data, "usage"@) matches Some(u) ==> {
            let zero = json::unwrap_or_zero(json::field_u64(u, "total_tokens"@)) == 0
                && json::unwrap_or_zero(json::field_u64(u, "prompt_tokens"@)) == 0
                && json::unwrap_or_zero(json::field_u64(u, "completion_tokens"@)) == 0;
            &&& zero ==> r is None
            &&& !zero ==> (r matches Some(usage) && counts_from(usage, u) && usage.model@ == model_of(*data))
        },
{
    let u = match data.get(&key("usage")) {
        Some(u) => u,
        None => return None,
    };
    let usage = counts(u, model_name(data));
    if usage.total_tokens == 0 && usage.prompt_tokens == 0 && usage.completion_tokens == 0 {
        return None;
    }
    Some(usage)
}

// ───────────────────────── SSE ─────────────────────────

/// The payloads after `data: ` of the lines that start with it, in order.
pub open spec fn data_payloads(lines: Seq<Seq<char>>) -> Seq<Seq<char>>
    decreases lines.len(),
{
    if lines.len() == 0 {
        Seq::<Seq<char>>::empty()
    } else {
        let init = data_payloads(lines.drop_last());
        let l = lines.last();
        if text::starts_with(l, "data: "@) {
            init.push(l.skip("data: "@.len() as int))
        } else {
            init
        }
    }
}

fn strip_cr_exec(p: Vec<char>) -> (r: Vec<char>)
    ensures
        r@ == text::strip_cr(p@),
{
    let mut p = p;
    if p.len() > 0 && p[p.len() - 1] == '\r' {
        p.pop();
    }
    p
}

fn data_payload(line: &Vec<char>, prefix: &Vec<char>) -> (r: Option<Vec<char>>)
    ensures
        text::starts_with(line@, prefix@) ==> (r matches Some(p) && p@ == line@.skip(prefix@.len() as int)),
        !text::starts_with(line@, prefix@) ==> r is None,
{
    if line.len() < prefix.len() {
        return None;
    }
    let mut i: usize = 0;
    while i < prefix.len()
        invariant
            i <= prefix.len() <= line.len(),
            forall|j: int| 0 <= j < i ==> line@[j] == prefix@[j],
        decreases prefix.len() - i,
    {
        if line[i] != prefix[i] {
            assert(line@.take(prefix@.len() as int)[i as int] != prefix@[i as int]);
            return None;
        }
        i = i + 1;
    }
    assert(line@.take(prefix@.len() as int) =~= prefix@);
    let mut rest: Vec<char> = Vec::new();
    let mut k: usize = prefix.len();
    while k < line.len()
        invariant
            prefix.len() <= k <= line.len(),
            rest@ == line@.subrange(prefix@.len() as int, k as int),
        decreases line.len() - k,
    {
        rest.push(line[k]);
        k = k + 1;
        assert(rest@ =~= line@.subrange(prefix@.len() as int, k as int));
    }
    assert(line@.subrange(prefix@.len() as int, line@.len() as int) =~= line@.skip(prefix@.len() as int));
    Some(rest)
}

/// The `data: ` payloads of the lines of an SSE text, in order.
pub fn sse_data_payloads(text: &str) -> (r: Vec<String>)
    ensures
        r@.len() == data_payloads(text::text_lines(text@)).len(),
        forall|i: int| 0 <= i < r@.len() ==> #[trigger] r@[i]@ == data_payloads(text::text_lines(text@))[i],
{
    let chars = text::chars_of(text);
    let pieces = text::split_chars(chars.as_slice(), '\n');
    let prefix = text::chars_of("data: ");
    let ghost ps = text::split_char(text@, '\n');
    proof {
        text::lemma_split_char_nonempty(text@, '\n');
    }
    let n: usize = pieces.len() - 1;
    let mut out: Vec<String> = Vec::new();
    let mut i: usize = 0;
    let ghost lines_so_far: Seq<Seq<char>> = Seq::empty();
    while i <= n
        invariant
            pieces@.len() == ps.len(),
            n == ps.len() - 1,
            forall|j: int| 0 <= j < pieces@.len() ==> #[trigger] pieces@[j]@ == ps[j],
            prefix@ == "data: "@,
            i <= n + 1,
            lines_so_far == (if i <= n { ps.take(i as int).map_values(|p: Seq<char>| text::strip_cr(p)) } else { text::text_lines(text@) }),
            out@.len() == data_payloads(lines_so_far).len(),
            forall|j: int| 0 <= j < out@.len() ==> #[trigger] out@[j]@ == data_payloads(lines_so_far)[j],
            ps == text::split_char(text@, '\n'),
        decreases n + 1 - i,
    {
        let ghost before = lines_so_far;
        let line: Vec<char>;
        if i < n {
            line = strip_cr_exec(pieces[i].clone());
            proof {
                lines_so_far = ps.take(i + 1).map_values(|p: Seq<char>| text::strip_cr(p));
                assert(lines_so_far =~= before.push(text::strip_cr(ps[i as int])));
            }
        } else {
            if pieces[i].len() == 0 {
                i = i + 1;
                proof {
                    lines_so_far = text::text_lines(text@);
                    assert(ps.take(n as int).map_values(|p: Seq<char>| text::strip_cr(p)) =~= before);
                }
                continue;
            }
            line = pieces[i].clone();
            proof {
                lines_so_far = text::text_lines(text@);
                assert(ps.take(n as int).map_values(|p: Seq<char>| text::strip_cr(p)) =~= before);
                assert(lines_so_far =~= before.push(ps[i as int]));
            }
        }
        assert(lines_so_far.drop_last() =~= before);
        assert(lines_so_far.last() == line@);
        match data_payload(&line, &prefix) {
            Some(p) => {
                out.push(text::string_from_chars(p.as_slice()));
            },
            None => {},
        }
        i = i + 1;
        if i <= n {
            assert(lines_so_far =~= ps.take(i as int).map_values(|p: Seq<char>| text::strip_cr(p)));
        }
    }
    out
}

} // verus!
