//! Choosing the LLM provider and making sense of its replies.
use vstd::prelude::*;

use crate::llm::review::{ReviewResult, RiskLevel};
use crate::text::{chars_of, string_from_chars};

verus! {

/// The LLM service and model to ask.
#[derive(Debug, Clone)]
pub enum LlmProvider {
    Anthropic { model: String },
    OpenAi { model: String },
}

pub enum LlmProviderView {
    Anthropic { model: Seq<char> },
    OpenAi { model: Seq<char> },
}

impl View for LlmProvider {
    type V = LlmProviderView;

    open spec fn view(&self) -> LlmProviderView {
        match self {
            LlmProvider::Anthropic { model } => LlmProviderView::Anthropic { model: model@ },
            LlmProvider::OpenAi { model } => LlmProviderView::OpenAi { model: model@ },
        }
    }
}

/// `openai` selects OpenAI (default model `gpt-4o`); any other name
/// selects Anthropic, whose default model the configuration supplies.
pub open spec fn provider_spec(name: Seq<char>, model: Option<Seq<char>>, anthropic_default: Seq<char>) -> LlmProviderView {
    if name == "openai"@ {
        LlmProviderView::OpenAi {
            model: match model {
                Some(m) => m,
                None => "gpt-4o"@,
            },
        }
    } else {
        LlmProviderView::Anthropic {
            model: match model {
                Some(m) => m,
                None => anthropic_default,
            },
        }
    }
}

impl LlmProvider {
    /// The provider a configuration names.
    pub fn from_config(provider_name: &str, model: Option<String>, anthropic_default: &str) -> (r: LlmProvider)
        ensures
            r@ == provider_spec(
                provider_name@,
                match model {
                    Some(m) => Some(m@),
                    None => None,
                },
                anthropic_default@,
            ),
    {
        let c = chars_of(provider_name);
        if crate::text::chars_are(c.as_slice(), "openai") {
            LlmProvider::OpenAi {
                model: match model {
                    Some(m) => m,
                    None => String::from_str("gpt-4o"),
                },
            }
        } else {
            LlmProvider::Anthropic {
                model: match model {
                    Some(m) => m,
                    None => String::from_str(anthropic_default),
                },
            }
        }
    }
}

/// Position of the first occurrence of `c`.
pub open spec fn first_char(s: Seq<char>, c: char) -> Option<int> {
    if exists|i: int| 0 <= i < s.len() && s[i] == c {
        Some(choose|i: int| 0 <= i < s.len() && s[i] == c && forall|j: int| 0 <= j < i ==> s[j] != c)
    } else {
        None
    }
}

/// Position of the last occurrence of `c`.
pub open spec fn last_char(s: Seq<char>, c: char) -> Option<int> {
    if exists|i: int| 0 <= i < s.len() && s[i] == c {
        Some(choose|i: int| 0 <= i < s.len() && s[i] == c && forall|j: int| i < j < s.len() ==> s[j] != c)
    } else {
        None
    }
}

/// The JSON object a reply holds: from its first `{` to its last `}`, or
/// the whole reply when it has no `{` or no `}`.
pub open spec fn json_span_spec(s: Seq<char>) -> Seq<char> {
    match (first_char(s, '{'), last_char(s, '}')) {
        (Some(a), Some(b)) => s.subrange(a, b + 1),
        _ => s,
    }
}

/// A reply whose last `}` comes before its first `{` cannot be cut.
pub open spec fn json_span_ok(s: Seq<char>) -> bool {
    match (first_char(s, '{'), last_char(s, '}')) {
        (Some(a), Some(b)) => a <= b + 1,
        _ => true,
    }
}

fn find_first_char(c: &Vec<char>, x: char) -> (r: Option<usize>)
    ensures
        match r {
            Some(i) => first_char(c@, x) == Some(i as int) && i < c@.len(),
            None => first_char(c@, x) is None,
        },
{
    let mut i: usize = 0;
    while i < c.len()
        invariant
            i <= c@.len(),
            forall|j: int| 0 <= j < i ==> c@[j] != x,
        decreases c.len() - i,
    {
        if c[i] == x {
            proof {
                let w = choose|k: int| 0 <= k < c@.len() && c@[k] == x && forall|j: int| 0 <= j < k ==> c@[j] != x;
                assert(c@[i as int] == x);
                if w < i {
                } else if w > i {
                    assert(c@[i as int] != x);
                }
            }
            return Some(i);
        }
        i = i + 1;
    }
    None
}

fn find_last_char(c: &Vec<char>, x: char) -> (r: Option<usize>)
    ensures
        match r {
            Some(i) => last_char(c@, x) == Some(i as int) && i < c@.len(),
            None => last_char(c@, x) is None,
        },
{
    let mut i: usize = c.len();
    while i > 0
        invariant
            i <= c@.len(),
            forall|j: int| i <= j < c@.len() ==> c@[j] != x,
        decreases i,
    {
        if c[i - 1] == x {
            proof {
                let k = (i - 1) as int;
                assert(c@[k] == x);
                let w = choose|m: int| 0 <= m < c@.len() && c@[m] == x && forall|j: int| m < j < c@.len() ==> c@[j] != x;
                if w < k {
                    assert(c@[k] != x);
                } else if w > k {
                }
            }
            return Some(i - 1);
        }
        i = i - 1;
    }
    None
}

/// The part of an LLM reply that should hold the JSON review.
pub fn json_span(response: &str) -> (r: String)
    requires
        json_span_ok(response@),
    ensures
        r@ == json_span_spec(response@),
{
    let c = chars_of(response);
    match find_first_char(&c, '{') {
        Some(a) => match find_last_char(&c, '}') {
            Some(b) => {
                let n = c.len();
                assert(b < n);
                let end: usize = b + 1;
                let r = string_from_chars(&c.as_slice()[a..end]);
                proof {
                    assert(c@.subrange(a as int, end as int) == json_span_spec(response@));
                }
                r
            },
            None => String::from_str(response),
        },
        None => String::from_str(response),
    }
}

/// The review used when a reply is not valid JSON: the reply itself as the
/// summary, low risk, nothing else.
pub fn fallback_review(response: &str) -> (r: ReviewResult)
    ensures
        r.summary@ == response@,
        r.risk_level == RiskLevel::Low,
        r.key_observations@.len() == 0,
        r.potential_issues@.len() == 0,
        r.test_suggestions@.len() == 0,
{
    ReviewResult {
        summary: String::from_str(response),
        risk_level: RiskLevel::Low,
        key_observations: Vec::new(),
        potential_issues: Vec::new(),
        test_suggestions: Vec::new(),
    }
}

} // verus!
