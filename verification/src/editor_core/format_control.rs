//! What Backspace and Delete remove in Mongolian text.
//!
//! Traditional Mongolian is written with invisible controls (the free
//! variation selectors, the vowel separator and the narrow no-break
//! space) that belong to a neighbouring letter, and a keystroke removes
//! the control together with that letter:
//!
//! * U+180B, U+180C, U+180D and U+180F modify the letter before them;
//! * U+180E and U+202F bind to the letter after them.
//!
//! From a line's characters and the cursor's position among them, a
//! [`DeletePlan`] says how many backspaces and then how many forward
//! deletes one keystroke amounts to.

use vstd::prelude::*;

verus! {

/// The editor actions one keystroke turns into: `backspaces` backward
/// deletions, then `deletes` forward deletions.
#[derive(Debug, Clone, Copy, PartialEq, Eq, Structural, Default)]
pub struct DeletePlan {
    /// Backward deletions, done first.
    pub backspaces: usize,
    /// Forward deletions, done after them.
    pub deletes: usize,
}

impl DeletePlan {
    pub open spec fn backspaces_only(n: usize) -> DeletePlan {
        DeletePlan { backspaces: n, deletes: 0 }
    }

    pub open spec fn deletes_only(n: usize) -> DeletePlan {
        DeletePlan { backspaces: 0, deletes: n }
    }

    /// A plan of `n` backspaces.
    pub fn backspace(n: usize) -> (plan: DeletePlan)
        ensures
            plan == DeletePlan::backspaces_only(n),
    {
        DeletePlan { backspaces: n, deletes: 0 }
    }

    /// A plan of `n` forward deletes.
    pub fn delete(n: usize) -> (plan: DeletePlan)
        ensures
            plan == DeletePlan::deletes_only(n),
    {
        DeletePlan { backspaces: 0, deletes: n }
    }
}

/// Any of the Mongolian format-control characters.
pub open spec fn spec_is_format_control(c: char) -> bool {
    c == '\u{180B}' || c == '\u{180C}' || c == '\u{180D}' || c == '\u{180E}' || c == '\u{180F}'
        || c == '\u{202F}'
}

/// A format control that attaches to the character before it.
pub open spec fn spec_is_format_after_visible(c: char) -> bool {
    c == '\u{180B}' || c == '\u{180C}' || c == '\u{180D}' || c == '\u{180F}'
}

/// A format control that attaches to the character after it.
pub open spec fn spec_is_format_before_visible(c: char) -> bool {
    c == '\u{180E}' || c == '\u{202F}'
}

/// Every format control is exactly one of the two attachment kinds.
pub proof fn lemma_format_control_kinds(c: char)
    ensures
        spec_is_format_control(c) <==> (spec_is_format_after_visible(c)
            || spec_is_format_before_visible(c)),
        !(spec_is_format_after_visible(c) && spec_is_format_before_visible(c)),
{
}

/// The format controls are the free variation selectors FVS1–FVS3 and
/// FVS4 (U+180B, U+180C, U+180D, U+180F), which shape the letter before
/// them, and the Mongolian vowel separator (U+180E) and narrow no-break
/// space (U+202F), which attach to the letter after them; no other
/// character is one.
pub proof fn lemma_format_controls_are_listed(c: char)
    ensures
        spec_is_format_after_visible(c) <==> (c == '\u{180B}' || c == '\u{180C}' || c == '\u{180D}' || c
            == '\u{180F}'),
        spec_is_format_before_visible(c) <==> (c == '\u{180E}' || c == '\u{202F}'),
        spec_is_format_control(c) <==> (c == '\u{180B}' || c == '\u{180C}' || c == '\u{180D}' || c
            == '\u{180E}' || c == '\u{180F}' || c == '\u{202F}'),
{
}

#[verifier::when_used_as_spec(spec_is_format_control)]
pub fn is_format_control(c: char) -> (r: bool)
    ensures
        r == spec_is_format_control(c),
{
    c == '\u{180B}' || c == '\u{180C}' || c == '\u{180D}' || c == '\u{180E}' || c == '\u{180F}'
        || c == '\u{202F}'
}

#[verifier::when_used_as_spec(spec_is_format_after_visible)]
pub fn is_format_after_visible(c: char) -> (r: bool)
    ensures
        r == spec_is_format_after_visible(c),
{
    c == '\u{180B}' || c == '\u{180C}' || c == '\u{180D}' || c == '\u{180F}'
}

#[verifier::when_used_as_spec(spec_is_format_before_visible)]
pub fn is_format_before_visible(c: char) -> (r: bool)
    ensures
        r == spec_is_format_before_visible(c),
{
    c == '\u{180E}' || c == '\u{202F}'
}

/// Start of the maximal run of `format_after` controls ending at `end`.
pub open spec fn after_run_start(s: Seq<char>, end: int) -> int
    decreases end,
{
    if end > 0 && end <= s.len() && spec_is_format_after_visible(s[end - 1]) {
        after_run_start(s, end - 1)
    } else {
        end
    }
}

/// Start of the maximal run of `format_before` controls ending at `end`.
pub open spec fn before_run_start(s: Seq<char>, end: int) -> int
    decreases end,
{
    if end > 0 && end <= s.len() && spec_is_format_before_visible(s[end - 1]) {
        before_run_start(s, end - 1)
    } else {
        end
    }
}

/// End of the maximal run of `format_after` controls starting at `start`.
pub open spec fn after_run_end(s: Seq<char>, start: int) -> int
    decreases s.len() - start,
{
    if 0 <= start < s.len() && spec_is_format_after_visible(s[start]) {
        after_run_end(s, start + 1)
    } else {
        start
    }
}

/// End of the maximal run of `format_before` controls starting at `start`.
pub open spec fn before_run_end(s: Seq<char>, start: int) -> int
    decreases s.len() - start,
{
    if 0 <= start < s.len() && spec_is_format_before_visible(s[start]) {
        before_run_end(s, start + 1)
    } else {
        start
    }
}

/// The plan for a Backspace keystroke with the cursor after `ci` characters.
pub open spec fn spec_backspace_plan(s: Seq<char>, ci: int) -> DeletePlan {
    if ci == 0 || ci > s.len() {
        DeletePlan::backspaces_only(1)
    } else {
        let before = s[ci - 1];
        if spec_is_format_after_visible(before) {
            // The run of format_after controls ending at the cursor, plus the
            // visible character it attaches to, if any.
            let pos = after_run_start(s, ci - 1);
            if pos > 0 && !spec_is_format_control(s[pos - 1]) {
                DeletePlan::backspaces_only((ci - pos + 1) as usize)
            } else {
                DeletePlan::backspaces_only(1)
            }
        } else if !spec_is_format_control(before) {
            // A visible character, plus the format_before run in front of it.
            let pos = before_run_start(s, ci - 1);
            if pos < ci - 1 {
                DeletePlan::backspaces_only((ci - pos) as usize)
            } else {
                DeletePlan::backspaces_only(1)
            }
        } else {
            // A format_before run ending at the cursor, attached to the
            // visible character right after the cursor.
            let pos = before_run_start(s, ci - 1);
            if ci < s.len() && !spec_is_format_control(s[ci]) {
                DeletePlan { backspaces: (ci - pos) as usize, deletes: 1 }
            } else {
                DeletePlan::backspaces_only(1)
            }
        }
    }
}

/// The plan for a Delete keystroke with the cursor after `ci` characters.
pub open spec fn spec_delete_plan(s: Seq<char>, ci: int) -> DeletePlan {
    if ci < 0 || ci >= s.len() {
        DeletePlan::deletes_only(1)
    } else {
        let at = s[ci];
        if !spec_is_format_control(at) {
            // A visible character, plus the format_after run behind it.
            let pos = after_run_end(s, ci + 1);
            if pos > ci + 1 {
                DeletePlan::deletes_only((pos - ci) as usize)
            } else {
                DeletePlan::deletes_only(1)
            }
        } else if spec_is_format_before_visible(at) {
            // A format_before run, plus the visible character it attaches to.
            let pos = before_run_end(s, ci + 1);
            if pos < s.len() && !spec_is_format_control(s[pos]) {
                DeletePlan::deletes_only((pos - ci + 1) as usize)
            } else {
                DeletePlan::deletes_only(1)
            }
        } else {
            // A format_after run starting at the cursor, attached to the
            // visible character right before the cursor.
            let pos = after_run_end(s, ci + 1);
            if ci > 0 && !spec_is_format_control(s[ci - 1]) {
                DeletePlan { backspaces: 1, deletes: (pos - ci) as usize }
            } else {
                DeletePlan::deletes_only(1)
            }
        }
    }
}

proof fn lemma_after_run_start_bounds(s: Seq<char>, end: int)
    requires
        0 <= end <= s.len(),
    ensures
        0 <= after_run_start(s, end) <= end,
        forall|k: int|
            after_run_start(s, end) <= k < end ==> spec_is_format_after_visible(#[trigger] s[k]),
    decreases end,
{
    if end > 0 && spec_is_format_after_visible(s[end - 1]) {
        lemma_after_run_start_bounds(s, end - 1);
    }
}

proof fn lemma_before_run_start_bounds(s: Seq<char>, end: int)
    requires
        0 <= end <= s.len(),
    ensures
        0 <= before_run_start(s, end) <= end,
        forall|k: int|
            before_run_start(s, end) <= k < end ==> spec_is_format_before_visible(#[trigger] s[k]),
    decreases end,
{
    if end > 0 && spec_is_format_before_visible(s[end - 1]) {
        lemma_before_run_start_bounds(s, end - 1);
    }
}

proof fn lemma_after_run_end_bounds(s: Seq<char>, start: int)
    requires
        0 <= start <= s.len(),
    ensures
        start <= after_run_end(s, start) <= s.len(),
        forall|k: int|
            start <= k < after_run_end(s, start) ==> spec_is_format_after_visible(#[trigger] s[k]),
    decreases s.len() - start,
{
    if start < s.len() && spec_is_format_after_visible(s[start]) {
        lemma_after_run_end_bounds(s, start + 1);
    }
}

proof fn lemma_before_run_end_bounds(s: Seq<char>, start: int)
    requires
        0 <= start <= s.len(),
    ensures
        start <= before_run_end(s, start) <= s.len(),
        forall|k: int|
            start <= k < before_run_end(s, start) ==> spec_is_format_before_visible(
                #[trigger] s[k],
            ),
    decreases s.len() - start,
{
    if start < s.len() && spec_is_format_before_visible(s[start]) {
        lemma_before_run_end_bounds(s, start + 1);
    }
}

/// Every keystroke deletes something: a plan always holds at least one
/// backspace or delete.
pub proof fn lemma_plans_are_never_empty(s: Seq<char>, ci: int)
    requires
        0 <= ci,
        s.len() <= usize::MAX,
    ensures
        spec_backspace_plan(s, ci).backspaces + spec_backspace_plan(s, ci).deletes >= 1,
        spec_delete_plan(s, ci).backspaces + spec_delete_plan(s, ci).deletes >= 1,
{
    if 0 < ci <= s.len() {
        lemma_after_run_start_bounds(s, ci - 1);
        lemma_before_run_start_bounds(s, ci - 1);
    }
    if ci < s.len() {
        lemma_after_run_end_bounds(s, ci + 1);
        lemma_before_run_end_bounds(s, ci + 1);
    }
}

/// With the cursor inside the line (not at its start), a Backspace plan
/// never reaches past either end of the line: it backs up over at most
/// the characters before the cursor and deletes at most those after it.
pub proof fn lemma_backspace_plan_stays_in_line(s: Seq<char>, ci: int)
    requires
        0 < ci <= s.len(),
    ensures
        spec_backspace_plan(s, ci).backspaces <= ci,
        ci + spec_backspace_plan(s, ci).deletes <= s.len(),
{
    lemma_after_run_start_bounds(s, ci - 1);
    lemma_before_run_start_bounds(s, ci - 1);
}

/// With the cursor before the end of the line, a Delete plan never
/// reaches past either end of the line.
pub proof fn lemma_delete_plan_stays_in_line(s: Seq<char>, ci: int)
    requires
        0 <= ci < s.len(),
    ensures
        spec_delete_plan(s, ci).backspaces <= ci,
        ci + spec_delete_plan(s, ci).deletes <= s.len(),
{
    lemma_after_run_end_bounds(s, ci + 1);
    lemma_before_run_end_bounds(s, ci + 1);
}

proof fn lemma_after_run_start_of_full_run(s: Seq<char>, i: int, j: int)
    requires
        0 <= i <= j <= s.len(),
        forall|k: int| i <= k < j ==> spec_is_format_after_visible(#[trigger] s[k]),
        i == 0 || !spec_is_format_after_visible(s[i - 1]),
    ensures
        after_run_start(s, j) == i,
    decreases j - i,
{
    if j > i {
        lemma_after_run_start_of_full_run(s, i, j - 1);
    }
}

proof fn lemma_before_run_start_of_full_run(s: Seq<char>, i: int, j: int)
    requires
        0 <= i <= j <= s.len(),
        forall|k: int| i <= k < j ==> spec_is_format_before_visible(#[trigger] s[k]),
        i == 0 || !spec_is_format_before_visible(s[i - 1]),
    ensures
        before_run_start(s, j) == i,
    decreases j - i,
{
    if j > i {
        lemma_before_run_start_of_full_run(s, i, j - 1);
    }
}

proof fn lemma_after_run_end_of_full_run(s: Seq<char>, i: int, j: int)
    requires
        0 <= i <= j <= s.len(),
        forall|k: int| i <= k < j ==> spec_is_format_after_visible(#[trigger] s[k]),
        j == s.len() || !spec_is_format_after_visible(s[j]),
    ensures
        after_run_end(s, i) == j,
    decreases j - i,
{
    if i < j {
        lemma_after_run_end_of_full_run(s, i + 1, j);
    }
}

proof fn lemma_before_run_end_of_full_run(s: Seq<char>, i: int, j: int)
    requires
        0 <= i <= j <= s.len(),
        forall|k: int| i <= k < j ==> spec_is_format_before_visible(#[trigger] s[k]),
        j == s.len() || !spec_is_format_before_visible(s[j]),
    ensures
        before_run_end(s, i) == j,
    decreases j - i,
{
    if i < j {
        lemma_before_run_end_of_full_run(s, i + 1, j);
    }
}

/// A visible character at `v` followed by a maximal run of
/// `format_after` controls ending at `e` is one unit: Backspace from
/// the end of the group and Delete from its start both remove exactly
/// the `e - v` characters of the group.
pub proof fn lemma_visible_format_after_group_is_one_unit(s: Seq<char>, v: int, e: int)
    requires
        0 <= v,
        v + 1 < e <= s.len(),
        !spec_is_format_control(s[v]),
        forall|k: int| v < k < e ==> spec_is_format_after_visible(#[trigger] s[k]),
        e == s.len() || !spec_is_format_after_visible(s[e]),
    ensures
        spec_backspace_plan(s, e) == DeletePlan::backspaces_only((e - v) as usize),
        spec_delete_plan(s, v) == DeletePlan::deletes_only((e - v) as usize),
{
    lemma_after_run_start_of_full_run(s, v + 1, e - 1);
    lemma_after_run_end_of_full_run(s, v + 1, e);
}

/// A maximal run of `format_before` controls starting at `b`, followed
/// by the visible character at `v`, is one unit: Backspace from just
/// after the visible character and Delete from the start of the run
/// both remove exactly the `v + 1 - b` characters of the group.
pub proof fn lemma_format_before_visible_group_is_one_unit(s: Seq<char>, b: int, v: int)
    requires
        0 <= b < v < s.len(),
        !spec_is_format_control(s[v]),
        forall|k: int| b <= k < v ==> spec_is_format_before_visible(#[trigger] s[k]),
        b == 0 || !spec_is_format_before_visible(s[b - 1]),
    ensures
        spec_backspace_plan(s, v + 1) == DeletePlan::backspaces_only((v + 1 - b) as usize),
        spec_delete_plan(s, b) == DeletePlan::deletes_only((v + 1 - b) as usize),
{
    lemma_before_run_start_of_full_run(s, b, v);
    lemma_before_run_end_of_full_run(s, b + 1, v);
}

/// Scan left over `format_after` controls ending at `end`.
fn scan_after_run_start(chars: &[char], end: usize) -> (pos: usize)
    requires
        end <= chars@.len(),
    ensures
        pos == after_run_start(chars@, end as int),
{
    let mut pos = end;
    while pos > 0 && is_format_after_visible(chars[pos - 1])
        invariant
            pos <= end <= chars@.len(),
            after_run_start(chars@, pos as int) == after_run_start(chars@, end as int),
        decreases pos,
    {
        pos -= 1;
    }
    pos
}

/// Scan left over `format_before` controls ending at `end`.
fn scan_before_run_start(chars: &[char], end: usize) -> (pos: usize)
    requires
        end <= chars@.len(),
    ensures
        pos == before_run_start(chars@, end as int),
{
    let mut pos = end;
    while pos > 0 && is_format_before_visible(chars[pos - 1])
        invariant
            pos <= end <= chars@.len(),
            before_run_start(chars@, pos as int) == before_run_start(chars@, end as int),
        decreases pos,
    {
        pos -= 1;
    }
    pos
}

/// Scan right over `format_after` controls starting at `start`.
fn scan_after_run_end(chars: &[char], start: usize) -> (pos: usize)
    requires
        start <= chars@.len(),
    ensures
        pos == after_run_end(chars@, start as int),
{
    let mut pos = start;
    while pos < chars.len() && is_format_after_visible(chars[pos])
        invariant
            start <= pos <= chars@.len(),
            after_run_end(chars@, pos as int) == after_run_end(chars@, start as int),
        decreases chars@.len() - pos,
    {
        pos += 1;
    }
    pos
}

/// Scan right over `format_before` controls starting at `start`.
fn scan_before_run_end(chars: &[char], start: usize) -> (pos: usize)
    requires
        start <= chars@.len(),
    ensures
        pos == before_run_end(chars@, start as int),
{
    let mut pos = start;
    while pos < chars.len() && is_format_before_visible(chars[pos])
        invariant
            start <= pos <= chars@.len(),
            before_run_end(chars@, pos as int) == before_run_end(chars@, start as int),
        decreases chars@.len() - pos,
    {
        pos += 1;
    }
    pos
}

/// The plan for Backspace with `cursor_index` characters of `chars`
/// before the cursor.
pub fn backspace_plan(chars: &[char], cursor_index: usize) -> (plan: DeletePlan)
    ensures
        plan == spec_backspace_plan(chars@, cursor_index as int),
{
    let n = chars.len();
    if cursor_index == 0 || n < cursor_index {
        return DeletePlan::backspace(1);
    }
    let prev = chars[cursor_index - 1];
    if is_format_after_visible(prev) {
        let pos = scan_after_run_start(chars, cursor_index - 1);
        proof {
            lemma_after_run_start_bounds(chars@, cursor_index - 1);
        }
        return if pos > 0 && !is_format_control(chars[pos - 1]) {
            DeletePlan::backspace(cursor_index - pos + 1)
        } else {
            DeletePlan::backspace(1)
        };
    }
    if !is_format_control(prev) {
        let pos = scan_before_run_start(chars, cursor_index - 1);
        proof {
            lemma_before_run_start_bounds(chars@, cursor_index - 1);
        }
        return if pos < cursor_index - 1 {
            DeletePlan::backspace(cursor_index - pos)
        } else {
            DeletePlan::backspace(1)
        };
    }
    let pos = scan_before_run_start(chars, cursor_index - 1);
    proof {
        lemma_before_run_start_bounds(chars@, cursor_index - 1);
    }
    if cursor_index < n && !is_format_control(chars[cursor_index]) {
        DeletePlan { backspaces: cursor_index - pos, deletes: 1 }
    } else {
        DeletePlan::backspace(1)
    }
}

/// The plan for Delete, with the cursor counted as for
/// [`backspace_plan`].
pub fn delete_plan(chars: &[char], cursor_index: usize) -> (plan: DeletePlan)
    ensures
        plan == spec_delete_plan(chars@, cursor_index as int),
{
    let n = chars.len();
    if n <= cursor_index {
        return DeletePlan::delete(1);
    }
    let next = chars[cursor_index];
    if !is_format_control(next) {
        let pos = scan_after_run_end(chars, cursor_index + 1);
        proof {
            lemma_after_run_end_bounds(chars@, cursor_index + 1);
        }
        return if pos > cursor_index + 1 {
            DeletePlan::delete(pos - cursor_index)
        } else {
            DeletePlan::delete(1)
        };
    }
    if is_format_before_visible(next) {
        let pos = scan_before_run_end(chars, cursor_index + 1);
        proof {
            lemma_before_run_end_bounds(chars@, cursor_index + 1);
        }
        return if pos < n && !is_format_control(chars[pos]) {
            DeletePlan::delete(pos - cursor_index + 1)
        } else {
            DeletePlan::delete(1)
        };
    }
    let pos = scan_after_run_end(chars, cursor_index + 1);
    proof {
        lemma_after_run_end_bounds(chars@, cursor_index + 1);
    }
    if cursor_index > 0 && !is_format_control(chars[cursor_index - 1]) {
        DeletePlan { backspaces: 1, deletes: pos - cursor_index }
    } else {
        DeletePlan::delete(1)
    }
}

} // verus!
