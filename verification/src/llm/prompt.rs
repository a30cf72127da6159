//! The prompts that ask for a review of one change or of a whole diff.
use vstd::prelude::*;

use crate::ast::symbol::{bytes_len, Symbol, SymbolView};
use crate::diff::body_diff::plain_text;
use crate::diff::change::{change_file_info, change_symbol_name, ChangeView, DiffResult, SemanticChange};
use crate::ratio::{percent, rounded_percent};
use crate::text::{byte_len, chars_of, decimal, decode_utf8_bytes, push_char, push_str, string_into_bytes, u128_to_string, usize_to_string};

verus! {

/// The reply format asked of a change review.
pub open spec fn change_shape() -> Seq<char> {
    "{\n  \"summary\": \"Brief description of what this change does\",\n  \"risk_level\": \"Low\" | \"Medium\" | \"High\",\n  \"key_observations\": [\"observation 1\", \"observation 2\"],\n  \"potential_issues\": [{\"severity\": \"Low\"|\"Medium\"|\"High\", \"description\": \"...\", \"suggestion\": \"...\"}],\n  \"test_suggestions\": [\"test case 1\", \"test case 2\"]\n}\n"@
}

/// The reply format asked of a diff summary.
pub open spec fn summary_shape() -> Seq<char> {
    "{\n  \"summary\": \"High-level summary of all changes\",\n  \"risk_level\": \"Low\" | \"Medium\" | \"High\",\n  \"key_observations\": [\"observation 1\", \"observation 2\"],\n  \"potential_issues\": [{\"severity\": \"Low\"|\"Medium\"|\"High\", \"description\": \"...\", \"suggestion\": \"...\"}],\n  \"test_suggestions\": [\"test case 1\", \"test case 2\"]\n}\n"@
}

pub open spec fn symbol_section(title: Seq<char>, s: Option<SymbolView>) -> Seq<char> {
    match s {
        None => Seq::empty(),
        Some(s) => title + "- Name: "@ + s.qualified_name + "\n"@ + "- File: "@ + s.file_path + ":"@
            + decimal(s.line_range.0 as nat) + "-"@ + decimal(s.line_range.1 as nat) + "\n"@ + "- Kind: "@
            + s.kind.text() + "\n"@ + (if s.signature.len() > 0 {
            "- Signature: "@ + s.signature + "\n"@
        } else {
            Seq::empty()
        }) + "\n"@,
    }
}

/// The body diff of a change as the prompt shows it: its first 3000 bytes
/// when it is longer.
pub open spec fn shown_body(plain: Seq<char>) -> Seq<char> {
    if bytes_len(plain) > 3000 {
        vstd::utf8::decode_utf8(vstd::utf8::encode_utf8(plain).take(3000)) + "\n... (truncated)\n"@
    } else {
        plain
    }
}

/// A body diff that can be cut at 3000 bytes: shorter, or with a
/// character boundary there.
pub open spec fn cuttable(plain: Seq<char>) -> bool {
    bytes_len(plain) <= 3000 || vstd::utf8::valid_utf8(vstd::utf8::encode_utf8(plain).take(3000))
}

pub open spec fn body_section(c: ChangeView) -> Seq<char> {
    match c.body_diff {
        None => Seq::empty(),
        Some(d) => "### Body Diff\n```\n"@ + shown_body(plain_text(d)) + "```\n\n"@,
    }
}

/// The prompt asking to review one change.
pub open spec fn change_prompt_spec(c: ChangeView) -> Seq<char> {
    "Analyze the following semantic change and provide a review.\n\n"@
        + "## Change Type: "@ + c.kind.label() + "\n"@ + "## Description: "@ + c.kind.description()
        + "\n"@ + "## Confidence: "@ + decimal(rounded_percent(c.confidence)) + "%\n\n"@
        + symbol_section("### Old Symbol\n"@, c.old_symbol) + symbol_section("### New Symbol\n"@, c.new_symbol)
        + body_section(c) + "Please respond in JSON with the following structure:\n"@ + change_shape()
}

fn push_symbol_section(p: &mut String, title: &str, s: &Option<Symbol>)
    ensures
        final(p)@ == old(p)@ + symbol_section(title@, crate::diff::change::opt_sym_view(*s)),
{
    let ghost start = p@;
    match s {
        None => {
            assert(start + Seq::<char>::empty() =~= start);
        },
        Some(s) => {
            push_str(p, title);
            push_str(p, "- Name: ");
            push_str(p, s.qualified_name.as_str());
            push_str(p, "\n");
            push_str(p, "- File: ");
            push_str(p, s.file_path.as_str());
            push_str(p, ":");
            push_str(p, usize_to_string(s.line_range.0).as_str());
            push_str(p, "-");
            push_str(p, usize_to_string(s.line_range.1).as_str());
            push_str(p, "\n");
            push_str(p, "- Kind: ");
            push_str(p, s.kind.as_text());
            push_str(p, "\n");
            let ghost mid = p@;
            if chars_of(s.signature.as_str()).len() > 0 {
                push_str(p, "- Signature: ");
                push_str(p, s.signature.as_str());
                push_str(p, "\n");
            }
            push_str(p, "\n");
            proof {
                assert(p@ =~= start + symbol_section(title@, Some(s@)));
            }
        },
    }
}

/// The prompt asking to review one change.
pub fn build_change_review_prompt(change: &SemanticChange) -> (r: String)
    requires
        change.confidence.wf(),
        match change@.body_diff {
            Some(d) => cuttable(plain_text(d)),
            None => true,
        },
    ensures
        r@ == change_prompt_spec(change@),
{
    let mut p = String::new();
    push_str(&mut p, "Analyze the following semantic change and provide a review.\n\n");
    push_str(&mut p, "## Change Type: ");
    push_str(&mut p, change.kind.label());
    push_str(&mut p, "\n");
    push_str(&mut p, "## Description: ");
    push_str(&mut p, change.kind.short_description().as_str());
    push_str(&mut p, "\n");
    push_str(&mut p, "## Confidence: ");
    push_str(&mut p, u128_to_string(percent(&change.confidence)).as_str());
    push_str(&mut p, "%\n\n");
    push_symbol_section(&mut p, "### Old Symbol\n", &change.old_symbol);
    push_symbol_section(&mut p, "### New Symbol\n", &change.new_symbol);
    let ghost before_body = p@;
    match &change.body_diff {
        Some(diff) => {
            let plain = diff.to_plain_text();
            push_str(&mut p, "### Body Diff\n```\n");
            if byte_len(plain.as_str()) > 3000 {
                let ghost pv = plain@;
                let bytes = string_into_bytes(plain);
                let mut head: Vec<u8> = Vec::new();
                let mut k: usize = 0;
                while k < 3000
                    invariant
                        k <= 3000,
                        bytes@ == vstd::utf8::encode_utf8(pv),
                        bytes@.len() > 3000,
                        head@ == bytes@.take(k as int),
                    decreases 3000 - k,
                {
                    head.push(bytes[k]);
                    k = k + 1;
                    assert(head@ =~= bytes@.take(k as int));
                }
                match decode_utf8_bytes(head.as_slice()) {
                    Some(t) => push_str(&mut p, t.as_str()),
                    None => {},
                }
                push_str(&mut p, "\n... (truncated)\n");
            } else {
                push_str(&mut p, plain.as_str());
            }
            push_str(&mut p, "```\n\n");
        },
        None => {},
    }
    proof {
        assert(p@ =~= before_body + body_section(change@));
    }
    push_str(&mut p, "Please respond in JSON with the following structure:\n");
    push_str(&mut p, "{\n  \"summary\": \"Brief description of what this change does\",\n  \"risk_level\": \"Low\" | \"Medium\" | \"High\",\n  \"key_observations\": [\"observation 1\", \"observation 2\"],\n  \"potential_issues\": [{\"severity\": \"Low\"|\"Medium\"|\"High\", \"description\": \"...\", \"suggestion\": \"...\"}],\n  \"test_suggestions\": [\"test case 1\", \"test case 2\"]\n}\n");
    proof {
        assert(Seq::<char>::empty() + "Analyze the following semantic change and provide a review.\n\n"@ =~= "Analyze the following semantic change and provide a review.\n\n"@);
        assert(p@ =~= change_prompt_spec(change@));
    }
    p
}

/// One change in the summary prompt.
pub open spec fn change_entry(c: ChangeView) -> Seq<char> {
    "- ["@ + c.kind.label() + "] "@ + change_symbol_name(c.old_symbol, c.new_symbol) + " - "@
        + c.kind.description() + " ("@ + change_file_info(c.old_symbol, c.new_symbol) + ")\n"@
}

pub open spec fn change_entries(cs: Seq<ChangeView>) -> Seq<char>
    decreases cs.len(),
{
    if cs.len() == 0 {
        Seq::empty()
    } else {
        change_entries(cs.drop_last()) + change_entry(cs.last())
    }
}

/// The prompt asking to summarize a diff: its counts, its first fifty
/// changes and how many more there are.
pub open spec fn summary_prompt_spec(d: DiffResult) -> Seq<char> {
    let s = d.summary;
    let cs = crate::diff::changes_view(d.changes@);
    "Provide a high-level summary of the following semantic diff.\n\n"@
        + "## Diff Summary\n"@ + "- Total changes: "@ + decimal(s.total_changes as nat) + "\n"@
        + "- Added: "@ + decimal(s.added as nat) + "\n"@ + "- Deleted: "@ + decimal(s.deleted as nat) + "\n"@
        + "- Renamed: "@ + decimal(s.renamed as nat) + "\n"@ + "- Moved: "@ + decimal(s.moved as nat) + "\n"@
        + "- Extracted: "@ + decimal(s.extracted as nat) + "\n"@ + "- Inlined: "@ + decimal(s.inlined as nat)
        + "\n"@ + "- Modified: "@ + decimal(s.modified as nat) + "\n"@ + "- Signature changed: "@ + decimal(
        s.signature_changed as nat,
    ) + "\n\n"@ + "## Changes\n"@ + (if cs.len() <= 50 {
        change_entries(cs)
    } else {
        change_entries(cs.take(50)) + "... and "@ + decimal((cs.len() - 50) as nat) + " more changes\n"@
    }) + "\nPlease respond in JSON with the following structure:\n"@ + summary_shape()
}

fn push_count(p: &mut String, label: &str, n: usize, end: &str)
    ensures
        final(p)@ == old(p)@ + label@ + decimal(n as nat) + end@,
{
    push_str(p, label);
    push_str(p, usize_to_string(n).as_str());
    push_str(p, end);
}

/// The prompt asking to summarize a diff.
pub fn build_summary_prompt(result: &DiffResult) -> (r: String)
    ensures
        r@ == summary_prompt_spec(*result),
{
    let s = &result.summary;
    let ghost cs = crate::diff::changes_view(result.changes@);
    let mut p = String::new();
    push_str(&mut p, "Provide a high-level summary of the following semantic diff.\n\n");
    push_str(&mut p, "## Diff Summary\n");
    push_count(&mut p, "- Total changes: ", s.total_changes, "\n");
    push_count(&mut p, "- Added: ", s.added, "\n");
    push_count(&mut p, "- Deleted: ", s.deleted, "\n");
    push_count(&mut p, "- Renamed: ", s.renamed, "\n");
    push_count(&mut p, "- Moved: ", s.moved, "\n");
    push_count(&mut p, "- Extracted: ", s.extracted, "\n");
    push_count(&mut p, "- Inlined: ", s.inlined, "\n");
    push_count(&mut p, "- Modified: ", s.modified, "\n");
    push_count(&mut p, "- Signature changed: ", s.signature_changed, "\n\n");
    push_str(&mut p, "## Changes\n");
    let ghost head = p@;
    let n: usize = if result.changes.len() <= 50 {
        result.changes.len()
    } else {
        50
    };
    let mut i: usize = 0;
    proof {
        assert(cs.take(0) =~= Seq::<ChangeView>::empty());
        assert(head + change_entries(cs.take(0)) =~= head);
    }
    while i < n
        invariant
            i <= n,
            n <= cs.len(),
            cs == crate::diff::changes_view(result.changes@),
            p@ == head + change_entries(cs.take(i as int)),
        decreases n - i,
    {
        let c = &result.changes[i];
        assert(cs[i as int] == c@);
        push_str(&mut p, "- [");
        push_str(&mut p, c.kind.label());
        push_str(&mut p, "] ");
        push_str(&mut p, c.symbol_name());
        push_str(&mut p, " - ");
        push_str(&mut p, c.kind.short_description().as_str());
        push_str(&mut p, " (");
        push_str(&mut p, c.file_info().as_str());
        push_str(&mut p, ")\n");
        proof {
            assert(cs.take(i + 1).drop_last() =~= cs.take(i as int));
            assert(cs.take(i + 1).last() == c@);
            assert(p@ =~= head + change_entries(cs.take(i + 1)));
        }
        i = i + 1;
    }
    if result.changes.len() > 50 {
        push_count(&mut p, "... and ", result.changes.len() - 50, " more changes\n");
    } else {
        proof {
            assert(cs.take(n as int) =~= cs);
        }
    }
    push_str(&mut p, "\nPlease respond in JSON with the following structure:\n");
    push_str(&mut p, "{\n  \"summary\": \"High-level summary of all changes\",\n  \"risk_level\": \"Low\" | \"Medium\" | \"High\",\n  \"key_observations\": [\"observation 1\", \"observation 2\"],\n  \"potential_issues\": [{\"severity\": \"Low\"|\"Medium\"|\"High\", \"description\": \"...\", \"suggestion\": \"...\"}],\n  \"test_suggestions\": [\"test case 1\", \"test case 2\"]\n}\n");
    proof {
        assert(Seq::<char>::empty() + "Provide a high-level summary of the following semantic diff.\n\n"@ =~= "Provide a high-level summary of the following semantic diff.\n\n"@);
        assert(p@ =~= summary_prompt_spec(*result));
    }
    p
}

} // verus!
