//! What the snapshot, the URL rule, the shell summaries, the tab list and
//! the page scripts promise, stated over all inputs.

use vstd::prelude::*;
use crate::dom::{NodeModel, TriState};
use crate::render::{
    index_part, indent, name_part, normalized_url, props_part, render_ai, render_children,
    skipped, state_part,
};
use crate::reports::{tab_list_reply, tabs_listing, TabSummary};
use crate::session::{
    element_lookup, lemma_value_escape_round_trip, lemma_value_escaped_cons, select_script,
    type_text_script, unescaped, value_escape_char, value_escaped,
};
use crate::shell::{shell_summary, streams_block};
use crate::text::{decimal, signed_decimal, trim};

verus! {

/// A URL is used as it stands exactly when, trimmed, it is empty or starts
/// with `http://`, `https://`, `about:`, `data:` or `file:`; any other URL
/// (such as one starting with `www.`) becomes `https://` followed by the
/// trimmed URL.
pub proof fn lemma_normalize_url_rule(u: Seq<char>)
    ensures
        trim(u).len() == 0 ==> normalized_url(u).len() == 0,
        trim(u).len() > 0 && ("http://"@.is_prefix_of(trim(u)) || "https://"@.is_prefix_of(trim(u))
            || "about:"@.is_prefix_of(trim(u)) || "data:"@.is_prefix_of(trim(u))
            || "file:"@.is_prefix_of(trim(u))) ==> normalized_url(u) == trim(u),
        trim(u).len() > 0 && !("http://"@.is_prefix_of(trim(u)) || "https://"@.is_prefix_of(
            trim(u),
        ) || "about:"@.is_prefix_of(trim(u)) || "data:"@.is_prefix_of(trim(u))
            || "file:"@.is_prefix_of(trim(u))) ==> normalized_url(u) == seq![
            'h',
            't',
            't',
            'p',
            's',
            ':',
            '/',
            '/',
        ] + trim(u),
{
    reveal_strlit("https://");
    assert("https://"@ =~= seq!['h', 't', 't', 'p', 's', ':', '/', '/']);
}

/// The marker that shows a checked state: `[checked]`, `[unchecked]` or
/// `[mixed]` as the state is true, false or mixed, nothing where there is
/// none.
pub open spec fn checked_marker(c: Option<TriState>) -> Seq<char> {
    match c {
        Some(TriState::Bool(true)) => seq![' ', '[', 'c', 'h', 'e', 'c', 'k', 'e', 'd', ']'],
        Some(TriState::Bool(false)) => seq![
            ' ',
            '[',
            'u',
            'n',
            'c',
            'h',
            'e',
            'c',
            'k',
            'e',
            'd',
            ']',
        ],
        Some(TriState::Mixed(_)) => seq![' ', '[', 'm', 'i', 'x', 'e', 'd', ']'],
        None => Seq::<char>::empty(),
    }
}

proof fn lemma_splice(x: Seq<char>, ad: Seq<char>, cm: Seq<char>, lp: Seq<char>, rest: Seq<char>)
    ensures
        x + (ad + cm + lp) + rest == (x + (ad + lp) + rest).take((x + ad).len() as int) + cm + (x
            + (ad + lp) + rest).skip((x + ad).len() as int),
{
    let whole = x + (ad + lp) + rest;
    assert(whole.take((x + ad).len() as int) =~= x + ad);
    assert(whole.skip((x + ad).len() as int) =~= lp + rest);
    assert(x + (ad + cm + lp) + rest =~= (x + ad) + cm + (lp + rest));
}

spec fn flags_before(m: NodeModel) -> Seq<char> {
    (if m.active == Some(true) {
        " [active]"@
    } else {
        seq![]
    }) + (if m.disabled == Some(true) {
        " [disabled]"@
    } else {
        seq![]
    })
}

spec fn flags_after(m: NodeModel) -> Seq<char> {
    (match m.level {
        Some(l) => " [level="@ + decimal(l as nat) + "]"@,
        None => seq![],
    }) + (if m.cursor == Some("pointer"@) {
        " [pointer]"@
    } else {
        seq![]
    })
}

proof fn lemma_state_split(m: NodeModel)
    ensures
        state_part(m) == flags_before(m) + checked_marker(m.checked) + flags_after(m),
{
    reveal_strlit(" [checked]");
    reveal_strlit(" [unchecked]");
    reveal_strlit(" [mixed]");
    assert(state_part(m) =~= flags_before(m) + checked_marker(m.checked) + flags_after(m));
}

proof fn lemma_render_split(m: NodeModel, depth: nat)
    requires
        !skipped(m),
    ensures
        render_ai(m, depth) == indent(depth) + "- "@ + m.role + index_part(m) + name_part(m)
            + state_part(m) + (props_part(m) + "\n"@ + render_children(m.children, depth)),
{
    assert(render_ai(m, depth) =~= indent(depth) + "- "@ + m.role + index_part(m) + name_part(m)
        + state_part(m) + (props_part(m) + "\n"@ + render_children(m.children, depth)));
}

/// The checked state shows in a node's snapshot as one marker and nothing
/// else: the rendering of a node is that of the same node without a checked
/// state, with `[checked]`, `[unchecked]` or `[mixed]` put in at one place,
/// as the state is true, false or mixed.
pub proof fn lemma_checked_marker(m: NodeModel, depth: nat)
    requires
        !skipped(m),
    ensures
        exists|k: int|
            0 <= k <= render_ai(NodeModel { checked: None, ..m }, depth).len() && render_ai(m, depth)
                == render_ai(NodeModel { checked: None, ..m }, depth).take(k) + checked_marker(
                m.checked,
            ) + render_ai(NodeModel { checked: None, ..m }, depth).skip(k),
{
    let m0 = NodeModel { checked: None, ..m };
    lemma_state_split(m);
    lemma_state_split(m0);
    assert(checked_marker(m0.checked) == Seq::<char>::empty());
    assert(flags_before(m0) == flags_before(m));
    assert(flags_after(m0) == flags_after(m));
    assert(state_part(m0) =~= flags_before(m) + flags_after(m));
    assert(!skipped(m0));
    lemma_render_split(m, depth);
    lemma_render_split(m0, depth);
    let x = indent(depth) + "- "@ + m.role + index_part(m) + name_part(m);
    let rest = props_part(m) + "\n"@ + render_children(m.children, depth);
    assert(index_part(m0) == index_part(m));
    assert(name_part(m0) == name_part(m));
    assert(props_part(m0) == props_part(m));
    lemma_splice(x, flags_before(m), checked_marker(m.checked), flags_after(m), rest);
    let k = (x + flags_before(m)).len() as int;
    assert(render_ai(m, depth) == render_ai(m0, depth).take(k) + checked_marker(m.checked)
        + render_ai(m0, depth).skip(k));
}

/// `s`, or `(empty)` where it is empty: how a blank stream is shown.
pub open spec fn shown_stream(s: Seq<char>) -> Seq<char> {
    if s.len() == 0 {
        "(empty)"@
    } else {
        s
    }
}

/// How a command that did not finish normally is summarized: a timeout is
/// reported as timed out; a command that exited with a code other than 0
/// as failed, with that code; one with no exit code (killed by a signal)
/// as terminated; each followed by the command and both streams, trimmed,
/// `(empty)` where blank.
pub proof fn lemma_shell_failure_kinds(
    command: Seq<char>,
    stdout: Seq<char>,
    stderr: Seq<char>,
    exit_code: Option<i32>,
    timed_out: bool,
)
    ensures
        ({
            let tail = "\ncommand: "@ + command + "\nstdout:\n"@ + shown_stream(trim(stdout))
                + "\nstderr:\n"@ + shown_stream(trim(stderr));
            &&& timed_out ==> shell_summary(command, stdout, stderr, exit_code, timed_out)
                == "[Command Timed Out]"@ + tail
            &&& !timed_out && exit_code is None ==> shell_summary(
                command,
                stdout,
                stderr,
                exit_code,
                timed_out,
            ) == "[Command Terminated]"@ + tail
            &&& (!timed_out && exit_code is Some && exit_code->0 != 0) ==> shell_summary(
                command,
                stdout,
                stderr,
                exit_code,
                timed_out,
            ) == "[Command Failed (exit code: "@ + signed_decimal(exit_code->0 as int) + ")]"@
                + tail
        }),
{
    let tail = "\ncommand: "@ + command + "\nstdout:\n"@ + shown_stream(trim(stdout))
        + "\nstderr:\n"@ + shown_stream(trim(stderr));
    assert(streams_block(command, trim(stdout), trim(stderr)) =~= tail);
}

/// A command that exited with code 0 and did not time out is never
/// summarized as failed, terminated or timed out: its summary is its
/// trimmed output, labelled where both streams have text, or a fixed
/// sentence where neither has.
pub proof fn lemma_shell_success(command: Seq<char>, stdout: Seq<char>, stderr: Seq<char>)
    ensures
        ({
            let out = trim(stdout);
            let err = trim(stderr);
            let r = shell_summary(command, stdout, stderr, Some(0i32), false);
            &&& out.len() == 0 && err.len() == 0 ==> r
                == "Command executed successfully with no output."@
            &&& out.len() > 0 && err.len() == 0 ==> r == out
            &&& out.len() == 0 && err.len() > 0 ==> r == "stderr:\n"@ + err
            &&& out.len() > 0 && err.len() > 0 ==> r == "stdout:\n"@ + out + "\n\nstderr:\n"@ + err
        }),
{
}

/// The tab list: a count line, then two lines per tab in order, numbered
/// from 0; a tab's first line carries `[active]` exactly when its URL is
/// the active tab's URL, character for character (a URL that merely starts
/// with it, or is a prefix of it, is not marked).
pub proof fn lemma_tab_list_marks(tabs: Vec<TabSummary>, active_url: Seq<char>)
    ensures
        tab_list_reply(Ok(tabs), active_url) == decimal(tabs@.len()) + " tab(s):\n"@
            + tabs_listing(tabs@, active_url),
        tabs_listing(Seq::<TabSummary>::empty(), active_url) == Seq::<char>::empty(),
        forall|k: int|
            0 <= k < tabs@.len() ==> #[trigger] tabs_listing(tabs@.take(k + 1), active_url)
                == tabs_listing(tabs@.take(k), active_url) + "["@ + decimal(k as nat) + "]"@
                + (if tabs@[k].url@ == active_url {
                " [active]"@
            } else {
                Seq::<char>::empty()
            }) + " "@ + tabs@[k].title@ + "\n    "@ + tabs@[k].url@ + "\n"@,
{
    assert forall|k: int| 0 <= k < tabs@.len() implies #[trigger] tabs_listing(
        tabs@.take(k + 1),
        active_url,
    ) == tabs_listing(tabs@.take(k), active_url) + "["@ + decimal(k as nat) + "]"@ + (
    if tabs@[k].url@ == active_url {
        " [active]"@
    } else {
        Seq::<char>::empty()
    }) + " "@ + tabs@[k].title@ + "\n    "@ + tabs@[k].url@ + "\n"@ by {
        assert(tabs@.take(k + 1).drop_last() == tabs@.take(k));
        assert(tabs@.take(k + 1).last() == tabs@[k]);
    }
}

/// Whether `s` can stand between single quotes in a script: every quote
/// and every backslash in it belongs to an escape `\'` or `\\`.
pub open spec fn safe_in_quotes(s: Seq<char>) -> bool
    decreases s.len(),
{
    if s.len() == 0 {
        true
    } else if s.len() >= 2 && s[0] == '\\' && (s[1] == '\\' || s[1] == '\'') {
        safe_in_quotes(s.skip(2))
    } else {
        s[0] != '\\' && s[0] != '\'' && safe_in_quotes(s.skip(1))
    }
}

proof fn lemma_escaped_value_safe(v: Seq<char>)
    ensures
        safe_in_quotes(value_escaped(v)),
        unescaped(value_escaped(v)) == v,
    decreases v.len(),
{
    lemma_value_escape_round_trip(v);
    if v.len() > 0 {
        let c = v[0];
        let rest = v.skip(1);
        assert(v == seq![c] + rest);
        lemma_value_escaped_cons(c, rest);
        lemma_escaped_value_safe(rest);
        let e = value_escape_char(c) + value_escaped(rest);
        if c == '\\' || c == '\'' {
            assert(e.skip(2) == value_escaped(rest));
        } else {
            assert(e.skip(1) == value_escaped(rest));
        }
    }
}

/// A value put into the type-text or select script stands between single
/// quotes as a string literal that can hold it (no bare quote or backslash
/// ends or bends it) and that reads back as exactly the value, whatever the
/// value holds.
pub proof fn lemma_script_values(selector: Seq<char>, value: Seq<char>)
    ensures
        exists|lit: Seq<char>|
            safe_in_quotes(lit) && unescaped(lit) == value && select_script(selector, value)
                == element_lookup(selector) + "                el.value = '"@ + lit
                + "';\n                el.dispatchEvent(new Event('change', { bubbles: true }));\n                return 'ok';\n            })()"@,
        exists|lit: Seq<char>|
            safe_in_quotes(lit) && unescaped(lit) == value && type_text_script(selector, value)
                == element_lookup(selector) + "                el.focus();\n                el.value = '"@
                + lit
                + "';\n                el.dispatchEvent(new Event('input', { bubbles: true }));\n                el.dispatchEvent(new Event('change', { bubbles: true }));\n                return 'ok';\n            })()"@,
{
    lemma_escaped_value_safe(value);
    let lit = value_escaped(value);
    assert(safe_in_quotes(lit) && unescaped(lit) == value);
}

} // verus!
