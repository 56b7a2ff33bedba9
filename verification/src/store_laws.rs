//! What the stores and the audit log are for: laws about refusals, file names, lines and
//! events.
use crate::audit;
use crate::audit::AuditEventView;
use crate::json;
use crate::json::Json;
use crate::store;
use crate::store::AckView;
use crate::text;
use vstd::prelude::*;

verus! {

/// An instance is saved exactly where the stored version is the expected one.
pub proof fn law_only_the_expected_version_is_replaced(
    stored: Option<u64>,
    id: Seq<char>,
    expected: u64,
)
    ensures
        store::save_refusal(stored, id, expected) is None <==> stored == Some(expected),
{
}

/// A definition is loaded exactly where it is there.
pub proof fn law_definitions_are_loaded_as_they_are(defs: Json, id: Seq<char>)
    ensures
        store::definition_result(defs, id) is Ok <==> defs.get(id) is Some,
        store::definition_result(defs, id) matches Ok(d) ==> defs.get(id) == Some(d),
{
}

/// A file name keeps the letters, numbers, `_` and `-` of an id and ends in `.json`; every
/// other character is replaced, so that it names no other directory.
pub proof fn law_file_names_are_safe(id: Seq<char>, i: int)
    requires
        0 <= i < id.len(),
    ensures
        ({
            let name = store::file_name(id);
            &&& name.len() == id.len() + 5
            &&& text::char_is_alphanumeric(id[i]) || id[i] == '_' || id[i] == '-' ==> name[i]
                == id[i]
            &&& !(text::char_is_alphanumeric(id[i]) || id[i] == '_' || id[i] == '-') ==> name[i]
                == '_'
            &&& name.skip(id.len() as int) == ".json"@
        }),
{
    reveal_strlit(".json");
    assert(".json"@.len() == 5);
    assert(store::file_name(id).skip(id.len() as int) =~= ".json"@);
}

proof fn lemma_ack_place(s: Seq<AckView>, w: Seq<char>, subject: Seq<char>, i: int)
    requires
        0 <= i <= s.len(),
    ensures
        ({
            let k = store::ack_place(s, w, subject, i);
            &&& i <= k <= s.len()
            &&& k < s.len() ==> s[k].workflow_id == w && s[k].subject == subject
            &&& forall|j: int|
                i <= j < k ==> !((#[trigger] s[j]).workflow_id == w && s[j].subject == subject)
        }),
    decreases s.len() - i,
{
    if i < s.len() && !(s[i].workflow_id == w && s[i].subject == subject) {
        lemma_ack_place(s, w, subject, i + 1);
    }
}

/// What is acknowledged of a subject in a workflow is what some acknowledgment for both says,
/// and nothing where there is none.
pub proof fn law_acknowledgments_are_looked_up(s: Seq<AckView>, w: Seq<char>, subject: Seq<char>)
    ensures
        store::acknowledged(s, w, subject) is Some <==> exists|j: int|
            0 <= j < s.len() && (#[trigger] s[j]).workflow_id == w && s[j].subject == subject,
        store::acknowledged(s, w, subject) matches Some(h) ==> exists|j: int|
            0 <= j < s.len() && (#[trigger] s[j]).workflow_id == w && s[j].subject == subject
                && s[j].body_hash == h,
{
    lemma_ack_place(s, w, subject, 0);
    let k = store::ack_place(s, w, subject, 0);
    if k < s.len() {
        assert(s[k].workflow_id == w);
    }
}

/// The lines of a log that count are those that are not blank, each as often as it stands
/// there.
pub proof fn law_blank_lines_do_not_count(lines: Seq<Seq<char>>, n: int, line: Seq<char>)
    requires
        0 <= n <= lines.len(),
    ensures
        audit::nonblank(lines, n).contains(line) <==> text::trimmed(line).len() > 0 && exists|
            i: int,
        |
            0 <= i < n && #[trigger] lines[i] == line,
        (forall|i: int| 0 <= i < n ==> text::trimmed(#[trigger] lines[i]).len() > 0)
            ==> audit::nonblank(lines, n) == lines.take(n),
    decreases n,
{
    if n > 0 {
        law_blank_lines_do_not_count(lines, n - 1, line);
        let before = audit::nonblank(lines, n - 1);
        let all = audit::nonblank(lines, n);
        if before.contains(line) {
            let i = choose|i: int| 0 <= i < before.len() && before[i] == line;
            assert(all[i] == line);
        }
        if lines[n - 1] == line && text::trimmed(line).len() > 0 {
            assert(all[before.len() as int] == line);
        }
        if all.contains(line) && !before.contains(line) {
            let i = choose|i: int| 0 <= i < all.len() && all[i] == line;
            if i < before.len() {
                assert(before[i] == line);
            }
            assert(lines[n - 1] == line);
        }
        if forall|i: int| 0 <= i < n ==> text::trimmed(#[trigger] lines[i]).len() > 0 {
            assert(text::trimmed(lines[n - 1]).len() > 0);
            assert(lines.take(n - 1).push(lines[n - 1]) =~= lines.take(n));
        }
    } else {
        assert(audit::nonblank(lines, n) =~= lines.take(n));
    }
}

/// An event gets the trace of the call that emits it and keeps everything else; without such
/// a trace it keeps its own.
pub proof fn law_events_are_traced(e: AuditEventView, trace: Option<Seq<char>>)
    ensures
        ({
            let t = e.traced(trace);
            &&& t.trace_id == (if trace is Some {
                trace
            } else {
                e.trace_id
            })
            &&& t.workflow_id == e.workflow_id && t.run_id == e.run_id && t.correlation_id
                == e.correlation_id && t.actor == e.actor && t.event_type == e.event_type
                && t.payload == e.payload
        }),
{
}

/// An event that could not be written is reported with its type and the error.
pub proof fn law_failed_writes_are_reported(event_type: Seq<char>, error: Seq<char>)
    ensures
        audit::write_failed_payload(event_type, error).str_at("originalEvent"@) == Some(event_type),
        audit::write_failed_payload(event_type, error).str_at("error"@) == Some(error),
{
    json::lemma_reads();
    reveal_strlit("originalEvent");
    reveal_strlit("error");
    assert("originalEvent"@.len() == 13 && "error"@.len() == 5);
}

} // verus!
