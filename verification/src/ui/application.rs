//! The state of the traffic view and its filtering rules.

use vstd::prelude::*;

use crate::model::{HeaderView, HttpHeader};
use crate::text::{
    equal_ignoring_ascii_case, str_eq_ignore_ascii_case,
    chars_equal, chars_equal_str, chars_of, contains_chars, decimal_text, ends_with_chars,
    extend_chars, extend_with, find_char, first_index_of, has_infix, has_suffix, parse_u16,
    parse_u16_text, push_decimal, push_two_digits, slice_chars, split_words, string_from_chars,
    to_lowercase, two_digit_text, unicode_lowercase, words,
};
use crate::ui::domain::{EventKind, kind_label, search_text_of, NetworkEvent, Process, RowView};

verus! {

broadcast use vstd::string::group_string_axioms;

/// The tabs of the detail panel.
#[derive(Debug, Clone, Copy, PartialEq, Eq, Structural)]
pub enum DetailTab {
    Headers,
    RequestBody,
    Response,
    Timing,
    Connection,
}

/// The label of a detail tab.
pub open spec fn tab_label(tab: DetailTab) -> Seq<char> {
    match tab {
        DetailTab::Headers => "Headers"@,
        DetailTab::RequestBody => "Request Body"@,
        DetailTab::Response => "Response"@,
        DetailTab::Timing => "Timing"@,
        DetailTab::Connection => "Connection"@,
    }
}

impl DetailTab {
    /// Every tab, in display order.
    pub const ALL: [DetailTab; 5] = [
        DetailTab::Headers,
        DetailTab::RequestBody,
        DetailTab::Response,
        DetailTab::Timing,
        DetailTab::Connection,
    ];

    /// The label of this tab.
    pub fn label(self) -> (r: &'static str)
        ensures
            r@ == tab_label(self),
    {
        match self {
            DetailTab::Headers => "Headers",
            DetailTab::RequestBody => "Request Body",
            DetailTab::Response => "Response",
            DetailTab::Timing => "Timing",
            DetailTab::Connection => "Connection",
        }
    }
}

// ---------------------------------------------------------------------------
// Filter syntax

/// The keys a `key:value` filter term may use.
pub open spec fn known_filter_key(k: Seq<char>) -> bool {
    ||| k == "process"@
    ||| k == "host"@
    ||| k == "method"@
    ||| k == "status"@
    ||| k == "protocol"@
    ||| k == "ip"@
    ||| k == "port"@
}

/// The keys whose value must be a 16-bit number.
pub open spec fn numeric_filter_key(k: Seq<char>) -> bool {
    k == "status"@ || k == "port"@
}

/// What is wrong with one filter word, if anything: words without `:` are
/// free text; for `key:value` (split at the first `:`) the lowercased key
/// must be known, and `status` and `port` need a number.
pub open spec fn term_problem(token: Seq<char>) -> Option<Seq<char>> {
    match first_index_of(token, ':') {
        None => None,
        Some(i) => {
            let key = token.subrange(0, i);
            let value = token.subrange(i + 1, token.len() as int);
            let lowered = unicode_lowercase(key);
            if !known_filter_key(lowered) {
                Some(
                    "Unknown filter ‘"@ + key + "’. Try host:, method:, protocol: or port:."@,
                )
            } else if numeric_filter_key(lowered) && parse_u16_text(value) is None {
                Some("‘"@ + value + "’ is not a valid "@ + key + " number."@)
            } else {
                None
            }
        },
    }
}

/// The problem of the first faulty word from position `i` on.
pub open spec fn first_problem_from(tokens: Seq<Seq<char>>, i: int) -> Option<Seq<char>>
    decreases tokens.len() - i,
{
    if 0 <= i < tokens.len() {
        match term_problem(tokens[i]) {
            Some(m) => Some(m),
            None => first_problem_from(tokens, i + 1),
        }
    } else {
        None
    }
}

/// The problem with a filter: that of its first faulty word.
pub open spec fn filter_problem(filter: Seq<char>) -> Option<Seq<char>> {
    first_problem_from(words(filter), 0)
}

fn check_term(token: &Vec<char>) -> (r: Option<String>)
    ensures
        match term_problem(token@) {
            None => r is None,
            Some(m) => r matches Some(s) && s@ == m,
        },
{
    let colon = match find_char(token, ':') {
        Some(i) => i,
        None => return None,
    };
    assert(colon < token.len());
    let key = slice_chars(token, 0, colon);
    let value = slice_chars(token, colon + 1, token.len());
    let key_text = string_from_chars(&key);
    let lowered_text = to_lowercase(key_text.as_str());
    let lowered = chars_of(lowered_text.as_str());
    let known = chars_equal_str(&lowered, "process") || chars_equal_str(&lowered, "host")
        || chars_equal_str(&lowered, "method") || chars_equal_str(&lowered, "status")
        || chars_equal_str(&lowered, "protocol") || chars_equal_str(&lowered, "ip")
        || chars_equal_str(&lowered, "port");
    if !known {
        let mut message: Vec<char> = Vec::new();
        extend_chars(&mut message, "Unknown filter ‘");
        extend_with(&mut message, &key);
        extend_chars(&mut message, "’. Try host:, method:, protocol: or port:.");
        let r = string_from_chars(&message);
        assert(r@ =~= "Unknown filter ‘"@ + key@ + "’. Try host:, method:, protocol: or port:."@);
        return Some(r);
    }
    let numeric = chars_equal_str(&lowered, "status") || chars_equal_str(&lowered, "port");
    if numeric && parse_u16(&value).is_none() {
        let mut message: Vec<char> = Vec::new();
        extend_chars(&mut message, "‘");
        extend_with(&mut message, &value);
        extend_chars(&mut message, "’ is not a valid ");
        extend_with(&mut message, &key);
        extend_chars(&mut message, " number.");
        let r = string_from_chars(&message);
        assert(r@ =~= "‘"@ + value@ + "’ is not a valid "@ + key@ + " number."@);
        return Some(r);
    }
    None
}

fn filter_words(filter: &str) -> (r: Vec<Vec<char>>)
    ensures
        r@.len() == words(filter@).len(),
        forall|k: int| 0 <= k < r@.len() ==> (#[trigger] r@[k])@ == words(filter@)[k],
{
    let cs = chars_of(filter);
    split_words(&cs)
}

/// Checks the filter syntax: the first word with an unknown key, or with a
/// non-numeric `status` or `port`, gives its message.
pub fn validate_filter(filter: &str) -> (r: Result<(), String>)
    ensures
        match filter_problem(filter@) {
            None => r is Ok,
            Some(m) => r matches Err(e) && e@ == m,
        },
{
    let tokens = filter_words(filter);
    let ghost ws = words(filter@);
    let mut i: usize = 0;
    while i < tokens.len()
        invariant
            i <= tokens@.len(),
            tokens@.len() == ws.len(),
            forall|k: int| 0 <= k < tokens@.len() ==> (#[trigger] tokens@[k])@ == ws[k],
            ws == words(filter@),
            first_problem_from(ws, 0) == first_problem_from(ws, i as int),
        decreases tokens@.len() - i,
    {
        assert(tokens@[i as int]@ == ws[i as int]);
        if let Some(message) = check_term(&tokens[i]) {
            return Err(message);
        }
        i = i + 1;
    }
    Ok(())
}

// ---------------------------------------------------------------------------
// Filter matching

/// Whether a row satisfies one filter word. Words are lowercased first; a
/// word without `:` must occur in the row's search text; `process:`,
/// `host:` and `protocol:` look for the value in the lowercased field,
/// `method:` and `status:` compare exactly, `ip:` looks in the addresses and
/// `port:` matches the end of an address after a colon.
pub open spec fn term_matches(e: RowView, token: Seq<char>) -> bool {
    let t = unicode_lowercase(token);
    match first_index_of(t, ':') {
        None => has_infix(search_text_of(e), t),
        Some(i) => {
            let key = t.subrange(0, i);
            let value = t.subrange(i + 1, t.len() as int);
            if key == "process"@ {
                has_infix(unicode_lowercase(e.process), value)
            } else if key == "host"@ {
                has_infix(unicode_lowercase(e.host), value)
            } else if key == "method"@ {
                unicode_lowercase(e.method) == value
            } else if key == "status"@ {
                e.status matches Some(s) && decimal_text(s as nat) == value
            } else if key == "protocol"@ {
                has_infix(unicode_lowercase(kind_label(e.kind)), value)
            } else if key == "ip"@ {
                has_infix(e.local, value) || has_infix(e.remote, value)
            } else if key == "port"@ {
                has_suffix(e.local, ":"@ + value) || has_suffix(e.remote, ":"@ + value)
            } else {
                false
            }
        },
    }
}

/// Whether a row passes a filter: the filter is valid and every word of it
/// matches.
pub open spec fn filter_accepts(e: RowView, filter: Seq<char>) -> bool {
    &&& filter_problem(filter) is None
    &&& forall|k: int| 0 <= k < words(filter).len() ==> #[trigger] term_matches(e, words(filter)[k])
}

fn lowercase_chars(s: &String) -> (r: Vec<char>)
    ensures
        r@ == unicode_lowercase(s@),
{
    let l = to_lowercase(s.as_str());
    chars_of(l.as_str())
}

fn term_matches_exec(event: &NetworkEvent, searchable: &Vec<char>, token: &Vec<char>) -> (r: bool)
    requires
        searchable@ == search_text_of(event@),
    ensures
        r == term_matches(event@, token@),
{
    let token_text = string_from_chars(token);
    let t = lowercase_chars(&token_text);
    let colon = match find_char(&t, ':') {
        Some(i) => i,
        None => return contains_chars(searchable, &t),
    };
    assert(colon < t.len());
    let key = slice_chars(&t, 0, colon);
    let value = slice_chars(&t, colon + 1, t.len());
    if chars_equal_str(&key, "process") {
        contains_chars(&lowercase_chars(&event.process), &value)
    } else if chars_equal_str(&key, "host") {
        contains_chars(&lowercase_chars(&event.host), &value)
    } else if chars_equal_str(&key, "method") {
        chars_equal(&lowercase_chars(&event.method), &value)
    } else if chars_equal_str(&key, "status") {
        match event.status {
            Some(s) => {
                let mut digits: Vec<char> = Vec::new();
                push_decimal(&mut digits, s as u64);
                assert(digits@ =~= decimal_text(s as nat));
                chars_equal(&digits, &value)
            },
            None => false,
        }
    } else if chars_equal_str(&key, "protocol") {
        let label = String::from_str(event.kind.label());
        contains_chars(&lowercase_chars(&label), &value)
    } else if chars_equal_str(&key, "ip") {
        contains_chars(&chars_of(event.local.as_str()), &value) || contains_chars(
            &chars_of(event.remote.as_str()),
            &value,
        )
    } else if chars_equal_str(&key, "port") {
        let mut suffix: Vec<char> = Vec::new();
        extend_chars(&mut suffix, ":");
        extend_with(&mut suffix, &value);
        ends_with_chars(&chars_of(event.local.as_str()), &suffix) || ends_with_chars(
            &chars_of(event.remote.as_str()),
            &suffix,
        )
    } else {
        false
    }
}

/// Whether a row passes the filter.
pub fn matches_filter(event: &NetworkEvent, filter: &str) -> (r: bool)
    ensures
        r == filter_accepts(event@, filter@),
{
    if validate_filter(filter).is_err() {
        return false;
    }
    let search = event.search_text();
    let searchable = chars_of(search.as_str());
    let tokens = filter_words(filter);
    let ghost ws = words(filter@);
    let mut i: usize = 0;
    while i < tokens.len()
        invariant
            i <= tokens@.len(),
            tokens@.len() == ws.len(),
            forall|k: int| 0 <= k < tokens@.len() ==> (#[trigger] tokens@[k])@ == ws[k],
            ws == words(filter@),
            filter_problem(filter@) is None,
            searchable@ == search_text_of(event@),
            forall|k: int| 0 <= k < i ==> #[trigger] term_matches(event@, ws[k]),
        decreases tokens@.len() - i,
    {
        if !term_matches_exec(event, &searchable, &tokens[i]) {
            assert(!term_matches(event@, ws[i as int]));
            return false;
        }
        i = i + 1;
    }
    true
}


// ---------------------------------------------------------------------------
// View state

#[verifier::external_type_specification]
#[verifier::external_body]
pub struct ExInstant(std::time::Instant);

/// The current instant of the monotonic clock.
///
/// Trusted: `std::time::Instant::now`; nothing is stated of the result.
#[verifier::external_body]
fn instant_now() -> std::time::Instant {
    std::time::Instant::now()
}

/// Whole seconds elapsed since an instant.
///
/// Trusted: `std::time::Instant::elapsed`, with the seconds taken by
/// `Duration::as_secs`; nothing is stated of the result, which depends on
/// the clock.
#[verifier::external_body]
fn elapsed_seconds(since: &std::time::Instant) -> u64 {
    since.elapsed().as_secs()
}

/// The state of the traffic view.
#[derive(Debug)]
pub struct AppState {
    pub processes: Vec<Process>,
    pub events: Vec<NetworkEvent>,
    pub selected_pid: Option<u32>,
    pub selected_event: Option<u64>,
    pub detail_tab: DetailTab,
    pub filter: String,
    pub filter_error: Option<String>,
    pub recording: bool,
    pub session_seconds: u64,
    pub last_tick: std::time::Instant,
    pub toast: Option<String>,
    pub capture_error: Option<String>,
}

/// Whether a row is shown: it belongs to the selected process, if one is
/// selected, and passes the filter.
pub open spec fn row_visible(e: RowView, selected_pid: Option<u32>, filter: Seq<char>) -> bool {
    &&& selected_pid matches Some(pid) ==> e.pid == Some(pid)
    &&& filter_accepts(e, filter)
}

/// The rows shown, in order.
pub open spec fn visible_rows(rows: Seq<RowView>, selected_pid: Option<u32>, filter: Seq<char>) -> Seq<
    RowView,
>
    decreases rows.len(),
{
    if rows.len() == 0 {
        rows
    } else if row_visible(rows.last(), selected_pid, filter) {
        visible_rows(rows.drop_last(), selected_pid, filter).push(rows.last())
    } else {
        visible_rows(rows.drop_last(), selected_pid, filter)
    }
}

/// The position of the first row with the given id.
pub open spec fn first_with_id(rows: Seq<NetworkEvent>, id: u64) -> Option<int> {
    if exists|i: int| 0 <= i < rows.len() && rows[i].id == id {
        Some(
            choose|i: int|
                0 <= i < rows.len() && rows[i].id == id && forall|j: int|
                    0 <= j < i ==> rows[j].id != id,
        )
    } else {
        None
    }
}

/// The heading naming the selected process: `name · PID pid` for the first
/// listed process with the selected PID, else `All processes`.
pub open spec fn process_heading(processes: Seq<Process>, selected_pid: Option<u32>) -> Seq<char> {
    match selected_pid {
        Some(pid) => if exists|i: int| 0 <= i < processes.len() && processes[i].pid == pid {
            let i = choose|i: int|
                0 <= i < processes.len() && processes[i].pid == pid && forall|j: int|
                    0 <= j < i ==> processes[j].pid != pid;
            processes[i].name@ + " · PID "@ + decimal_text(pid as nat)
        } else {
            "All processes"@
        },
        None => "All processes"@,
    }
}

/// The position of the first process with the given PID.
pub open spec fn first_pid_index(ps: Seq<Process>, pid: u32) -> Option<int> {
    if exists|i: int| 0 <= i < ps.len() && ps[i].pid == pid {
        Some(choose|i: int| 0 <= i < ps.len() && ps[i].pid == pid && forall|j: int| 0 <= j < i ==> ps[j].pid != pid)
    } else {
        None
    }
}

/// The position of the first row of the given process.
pub open spec fn first_row_of(rows: Seq<NetworkEvent>, pid: u32) -> Option<int> {
    if exists|i: int| 0 <= i < rows.len() && rows[i].pid == Some(pid) {
        Some(
            choose|i: int|
                0 <= i < rows.len() && rows[i].pid == Some(pid) && forall|j: int|
                    0 <= j < i ==> rows[j].pid != Some(pid),
        )
    } else {
        None
    }
}

/// Whether a listed process is an application with the given name,
/// ignoring ASCII case.
pub open spec fn is_application_named(p: Process, name: Seq<char>) -> bool {
    p.application && equal_ignoring_ascii_case(p.name@, name)
}

/// The position of the first application with the given name, ignoring
/// ASCII case.
pub open spec fn first_application_named(ps: Seq<Process>, name: Seq<char>) -> Option<int> {
    if exists|i: int| 0 <= i < ps.len() && is_application_named(ps[i], name) {
        Some(
            choose|i: int|
                0 <= i < ps.len() && is_application_named(ps[i], name) && forall|j: int|
                    0 <= j < i ==> !is_application_named(ps[j], name),
        )
    } else {
        None
    }
}

/// The selected PID once the process list is replaced: kept while a
/// process with it is listed; otherwise, on the applications tab, moved to
/// the first application with the name the selected process had (an
/// application restarted under a new PID); otherwise cleared.
pub open spec fn kept_selection(
    before: Seq<Process>,
    after: Seq<Process>,
    selected: Option<u32>,
    applications_tab: bool,
) -> Option<u32> {
    match selected {
        None => None,
        Some(pid) => if first_pid_index(after, pid) is Some {
            Some(pid)
        } else if !applications_tab {
            None
        } else {
            match first_pid_index(before, pid) {
                None => None,
                Some(j) => match first_application_named(after, before[j].name@) {
                    Some(k) => Some(after[k].pid),
                    None => None,
                },
            }
        },
    }
}

/// The position of the first process with the given PID.
fn find_pid(ps: &Vec<Process>, pid: u32) -> (r: Option<usize>)
    ensures
        match r {
            Some(i) => i < ps@.len() && ps@[i as int].pid == pid && first_pid_index(ps@, pid)
                == Some(i as int),
            None => first_pid_index(ps@, pid) is None,
        },
{
    let mut i: usize = 0;
    while i < ps.len()
        invariant
            i <= ps@.len(),
            forall|j: int| 0 <= j < i ==> ps@[j].pid != pid,
        decreases ps@.len() - i,
    {
        if ps[i].pid == pid {
            proof {
                assert(0 <= i < ps@.len() && ps@[i as int].pid == pid && forall|j: int|
                    0 <= j < i ==> ps@[j].pid != pid);
                let w = choose|w: int|
                    0 <= w < ps@.len() && ps@[w].pid == pid && forall|j: int|
                        0 <= j < w ==> ps@[j].pid != pid;
                if w < i {
                    assert(ps@[w].pid != pid);
                } else if w > i {
                    assert(ps@[i as int].pid != pid);
                }
            }
            return Some(i);
        }
        i = i + 1;
    }
    None
}

/// The position of the first application with the given name.
fn find_application_named(ps: &Vec<Process>, name: &str) -> (r: Option<usize>)
    ensures
        match r {
            Some(i) => i < ps@.len() && first_application_named(ps@, name@) == Some(i as int),
            None => first_application_named(ps@, name@) is None,
        },
{
    let mut i: usize = 0;
    while i < ps.len()
        invariant
            i <= ps@.len(),
            forall|j: int| 0 <= j < i ==> !is_application_named(ps@[j], name@),
        decreases ps@.len() - i,
    {
        if ps[i].application && str_eq_ignore_ascii_case(ps[i].name.as_str(), name) {
            proof {
                assert(0 <= i < ps@.len() && is_application_named(ps@[i as int], name@) && forall|
                    j: int,
                | 0 <= j < i ==> !is_application_named(ps@[j], name@));
                let w = choose|w: int|
                    0 <= w < ps@.len() && is_application_named(ps@[w], name@) && forall|j: int|
                        0 <= j < w ==> !is_application_named(ps@[j], name@);
                if w < i {
                    assert(!is_application_named(ps@[w], name@));
                } else if w > i {
                    assert(!is_application_named(ps@[i as int], name@));
                }
            }
            return Some(i);
        }
        i = i + 1;
    }
    None
}

/// The rows without those with the given id, in order.
pub open spec fn rows_without(rows: Seq<RowView>, id: u64) -> Seq<RowView>
    decreases rows.len(),
{
    if rows.len() == 0 {
        rows
    } else if rows.last().id == id {
        rows_without(rows.drop_last(), id)
    } else {
        rows_without(rows.drop_last(), id).push(rows.last())
    }
}

/// The session clock after a tick `elapsed` whole seconds after the last
/// one: advanced (saturating) while recording, unchanged while paused.
pub open spec fn session_after(session_seconds: u64, recording: bool, elapsed: u64) -> u64 {
    if recording && elapsed > 0 {
        if session_seconds + elapsed > u64::MAX {
            u64::MAX
        } else {
            (session_seconds + elapsed) as u64
        }
    } else {
        session_seconds
    }
}

/// How a session clock advances on a tick: while recording, whole elapsed
/// seconds are added (saturating) and the tick restarts once at least one
/// has passed; while paused the tick restarts and the clock stays.
pub fn advance_session(session_seconds: u64, recording: bool, elapsed: u64) -> (r: (u64, bool))
    ensures
        r.0 == session_after(session_seconds, recording, elapsed),
        r.1 == (!recording || elapsed > 0),
{
    if recording {
        if elapsed > 0 {
            (session_seconds.saturating_add(elapsed), true)
        } else {
            (session_seconds, false)
        }
    } else {
        (session_seconds, true)
    }
}

impl AppState {
    /// A recording view over the given processes and rows, with nothing
    /// selected, no filter and a zero session clock.
    pub fn new(processes: Vec<Process>, events: Vec<NetworkEvent>) -> (r: Self)
        ensures
            r.processes.deep_view() == processes.deep_view(),
            r.events.deep_view() == events.deep_view(),
            r.selected_pid is None,
            r.selected_event is None,
            r.detail_tab == DetailTab::Headers,
            r.filter@ == Seq::<char>::empty(),
            r.filter_error is None,
            r.recording,
            r.session_seconds == 0,
            r.toast is None,
            r.capture_error is None,
    {
        AppState {
            processes,
            events,
            selected_pid: None,
            selected_event: None,
            detail_tab: DetailTab::Headers,
            filter: String::new(),
            filter_error: None,
            recording: true,
            session_seconds: 0,
            last_tick: instant_now(),
            toast: None,
            capture_error: None,
        }
    }

    /// The rows shown for the selected process and the filter, in order.
    pub fn visible_events(&self) -> (r: Vec<&NetworkEvent>)
        ensures
            r@.len() == visible_rows(self.events.deep_view(), self.selected_pid, self.filter@).len(),
            forall|k: int|
                0 <= k < r@.len() ==> (#[trigger] r@[k])@ == visible_rows(
                    self.events.deep_view(),
                    self.selected_pid,
                    self.filter@,
                )[k],
    {
        let ghost rows = self.events.deep_view();
        let mut out: Vec<&NetworkEvent> = Vec::new();
        let mut i: usize = 0;
        while i < self.events.len()
            invariant
                i <= self.events@.len(),
                rows == self.events.deep_view(),
                out@.len() == visible_rows(rows.take(i as int), self.selected_pid, self.filter@).len(),
                forall|k: int|
                    0 <= k < out@.len() ==> (#[trigger] out@[k])@ == visible_rows(
                        rows.take(i as int),
                        self.selected_pid,
                        self.filter@,
                    )[k],
            decreases self.events@.len() - i,
        {
            let event = &self.events[i];
            let ghost before = rows.take(i as int);
            assert(rows.take(i + 1).drop_last() =~= before);
            assert(rows.take(i + 1).last() == event@);
            let of_process = match self.selected_pid {
                Some(pid) => match event.pid {
                    Some(p) => p == pid,
                    None => false,
                },
                None => true,
            };
            if of_process && matches_filter(event, self.filter.as_str()) {
                out.push(event);
            }
            i = i + 1;
        }
        assert(rows.take(self.events@.len() as int) =~= rows);
        out
    }

    /// The selected row, if it is still listed.
    pub fn selected_event(&self) -> (r: Option<&NetworkEvent>)
        ensures
            r is Some <==> (self.selected_event is Some && first_with_id(
                self.events@,
                self.selected_event->0,
            ) is Some),
            r is Some ==> r->0@ == self.events@[first_with_id(
                self.events@,
                self.selected_event->0,
            )->0]@,
    {
        let id = match self.selected_event {
            Some(id) => id,
            None => return None,
        };
        let ghost rows = self.events@;
        let mut i: usize = 0;
        while i < self.events.len()
            invariant
                i <= self.events@.len(),
                rows == self.events@,
                self.selected_event == Some(id),
                forall|j: int| 0 <= j < i ==> rows[j].id != id,
            decreases self.events@.len() - i,
        {
            if self.events[i].id == id {
                proof {
                    assert(0 <= i < rows.len() && rows[i as int].id == id && forall|j: int|
                        0 <= j < i ==> rows[j].id != id);
                    let w = choose|w: int|
                        0 <= w < rows.len() && rows[w].id == id && forall|j: int|
                            0 <= j < w ==> rows[j].id != id;
                    assert(rows[i as int].id == id);
                    if w < i {
                    } else if w > i {
                        assert(rows[i as int].id != id);
                    }
                }
                assert(exists|w: int| 0 <= w < self.events@.len() && self.events@[w].id == id);
                assert(first_with_id(self.events@, id) == Some(i as int));
                let r = &self.events[i];
                assert(r@ == self.events@[i as int]@);
                return Some(r);
            }
            i = i + 1;
        }
        None
    }

    /// The heading naming the selected process.
    pub fn selected_process_name(&self) -> (r: String)
        ensures
            r@ == process_heading(self.processes@, self.selected_pid),
    {
        let pid = match self.selected_pid {
            Some(pid) => pid,
            None => return String::from_str("All processes"),
        };
        let ghost list = self.processes@;
        let mut i: usize = 0;
        while i < self.processes.len()
            invariant
                i <= self.processes@.len(),
                list == self.processes@,
                self.selected_pid == Some(pid),
                forall|j: int| 0 <= j < i ==> list[j].pid != pid,
            decreases self.processes@.len() - i,
        {
            if self.processes[i].pid == pid {
                proof {
                    assert(0 <= i < list.len() && list[i as int].pid == pid && forall|j: int|
                        0 <= j < i ==> list[j].pid != pid);
                    let w = choose|w: int|
                        0 <= w < list.len() && list[w].pid == pid && forall|j: int|
                            0 <= j < w ==> list[j].pid != pid;
                    if w < i {
                        assert(list[w].pid != pid);
                    } else if w > i {
                        assert(list[i as int].pid != pid);
                    }
                    assert(w == i);
                    assert(process_heading(list, Some(pid)) == list[i as int].name@ + " · PID "@
                        + decimal_text(pid as nat));
                }
                let mut out = chars_of(self.processes[i].name.as_str());
                extend_chars(&mut out, " · PID ");
                push_decimal(&mut out, pid as u64);
                let r = string_from_chars(&out);
                assert(r@ == process_heading(self.processes@, self.selected_pid));
                return r;
            }
            i = i + 1;
        }
        String::from_str("All processes")
    }

    /// Advances the session clock by the whole seconds elapsed since the last
    /// tick while recording; when paused the clock stays.
    pub fn tick(&mut self)
        ensures
            final(self).recording == old(self).recording,
            exists|elapsed: u64|
                final(self).session_seconds == session_after(
                    old(self).session_seconds,
                    old(self).recording,
                    elapsed,
                ),
            final(self).processes.deep_view() == old(self).processes.deep_view(),
            final(self).events.deep_view() == old(self).events.deep_view(),
            final(self).selected_pid == old(self).selected_pid,
            final(self).selected_event == old(self).selected_event,
            final(self).filter@ == old(self).filter@,
    {
        let elapsed = if self.recording {
            elapsed_seconds(&self.last_tick)
        } else {
            0
        };
        let (session, restart) = advance_session(self.session_seconds, self.recording, elapsed);
        self.session_seconds = session;
        if restart {
            self.last_tick = instant_now();
        }
    }

    /// Shows a row while recording: it replaces the first row with its id,
    /// or is added at the end; while paused nothing changes.
    pub fn record_event(&mut self, event: NetworkEvent)
        ensures
            final(self).events.deep_view() == if !old(self).recording {
                old(self).events.deep_view()
            } else {
                match first_with_id(old(self).events@, event.id) {
                    Some(i) => old(self).events.deep_view().update(i, event@),
                    None => old(self).events.deep_view().push(event@),
                }
            },
            final(self).processes.deep_view() == old(self).processes.deep_view(),
            final(self).selected_pid == old(self).selected_pid,
            final(self).selected_event == old(self).selected_event,
            final(self).recording == old(self).recording,
            final(self).filter@ == old(self).filter@,
    {
        if !self.recording {
            return;
        }
        let ghost rows = self.events@;
        let mut i: usize = 0;
        while i < self.events.len()
            invariant
                i <= self.events@.len(),
                rows == self.events@,
                *self == *old(self),
                self.recording,
                forall|j: int| 0 <= j < i ==> rows[j].id != event.id,
            decreases self.events@.len() - i,
        {
            if self.events[i].id == event.id {
                proof {
                    assert(0 <= i < rows.len() && rows[i as int].id == event.id && forall|j: int|
                        0 <= j < i ==> rows[j].id != event.id);
                    let w = choose|w: int|
                        0 <= w < rows.len() && rows[w].id == event.id && forall|j: int|
                            0 <= j < w ==> rows[j].id != event.id;
                    if w < i {
                        assert(rows[w].id != event.id);
                    } else if w > i {
                        assert(rows[i as int].id != event.id);
                    }
                    assert(first_with_id(rows, event.id) == Some(i as int));
                }
                let ghost before = self.events.deep_view();
                self.events.set(i, event);
                assert(self.events.deep_view() =~= before.update(i as int, event@));
                return;
            }
            i = i + 1;
        }
        let ghost before = self.events.deep_view();
        self.events.push(event);
        assert(self.events.deep_view() =~= before.push(event@));
    }

    /// Replaces the process list, keeping the selection where the selected
    /// process is still listed (see [`kept_selection`]); when the selection
    /// is lost, the selected row is cleared too.
    pub fn replace_processes(&mut self, processes: Vec<Process>, applications_tab: bool)
        ensures
            final(self).processes@ == processes@,
            final(self).selected_pid == kept_selection(
                old(self).processes@,
                processes@,
                old(self).selected_pid,
                applications_tab,
            ),
            final(self).selected_event == if old(self).selected_pid is Some
                && final(self).selected_pid is None {
                None
            } else {
                old(self).selected_event
            },
            final(self).events.deep_view() == old(self).events.deep_view(),
            final(self).recording == old(self).recording,
            final(self).filter@ == old(self).filter@,
    {
        if let Some(pid) = self.selected_pid {
            let kept = match find_pid(&processes, pid) {
                Some(_) => Some(pid),
                None => if !applications_tab {
                    None
                } else {
                    match find_pid(&self.processes, pid) {
                        None => None,
                        Some(j) => match find_application_named(
                            &processes,
                            self.processes[j].name.as_str(),
                        ) {
                            Some(k) => Some(processes[k].pid),
                            None => None,
                        },
                    }
                },
            };
            self.selected_pid = kept;
            if kept.is_none() {
                self.selected_event = None;
            }
        }
        self.processes = processes;
    }

    /// Selects a process, and with it the first row of that process; with
    /// no process, all traffic is shown and no row is selected.
    pub fn select_process(&mut self, pid: Option<u32>)
        ensures
            final(self).selected_pid == pid,
            final(self).selected_event == match pid {
                None => None,
                Some(p) => match first_row_of(old(self).events@, p) {
                    Some(i) => Some(old(self).events@[i].id),
                    None => None,
                },
            },
            final(self).events.deep_view() == old(self).events.deep_view(),
            final(self).processes.deep_view() == old(self).processes.deep_view(),
            final(self).recording == old(self).recording,
            final(self).filter@ == old(self).filter@,
    {
        let p = match pid {
            None => {
                self.selected_pid = None;
                self.selected_event = None;
                return;
            },
            Some(p) => p,
        };
        let ghost rows = self.events@;
        let mut found: Option<u64> = None;
        let mut i: usize = 0;
        loop
            invariant_except_break
                found is None,
            invariant
                i <= self.events@.len(),
                rows == self.events@,
                *self == *old(self),
                forall|j: int| 0 <= j < i ==> rows[j].pid != Some(p),
            ensures
                *self == *old(self),
                found matches Some(id) ==> (first_row_of(rows, p) matches Some(k) && rows[k].id
                    == id),
                found is None ==> first_row_of(rows, p) is None,
            decreases self.events@.len() - i,
        {
            if i >= self.events.len() {
                break;
            }
            if self.events[i].pid == Some(p) {
                proof {
                    assert(0 <= i < rows.len() && rows[i as int].pid == Some(p) && forall|j: int|
                        0 <= j < i ==> rows[j].pid != Some(p));
                    let w = choose|w: int|
                        0 <= w < rows.len() && rows[w].pid == Some(p) && forall|j: int|
                            0 <= j < w ==> rows[j].pid != Some(p);
                    if w < i {
                        assert(rows[w].pid != Some(p));
                    } else if w > i {
                        assert(rows[i as int].pid != Some(p));
                    }
                    assert(first_row_of(rows, p) == Some(i as int));
                }
                found = Some(self.events[i].id);
                break;
            }
            i = i + 1;
        }
        self.selected_pid = pid;
        self.selected_event = found;
    }

    /// Clears the filter: no text, no error, and no row selected.
    pub fn clear_filter(&mut self)
        ensures
            final(self).filter@ == Seq::<char>::empty(),
            final(self).filter_error is None,
            final(self).selected_event is None,
            final(self).selected_pid == old(self).selected_pid,
            final(self).events.deep_view() == old(self).events.deep_view(),
            final(self).processes.deep_view() == old(self).processes.deep_view(),
            final(self).recording == old(self).recording,
    {
        self.filter = String::new();
        self.filter_error = None;
        self.selected_event = None;
    }

    /// Checks the filter as it now reads: its problem, if any, becomes the
    /// filter error.
    pub fn refresh_filter_error(&mut self)
        ensures
            match filter_problem(old(self).filter@) {
                None => final(self).filter_error is None,
                Some(m) => final(self).filter_error matches Some(e) && e@ == m,
            },
            final(self).filter@ == old(self).filter@,
            final(self).selected_event == old(self).selected_event,
            final(self).selected_pid == old(self).selected_pid,
            final(self).events.deep_view() == old(self).events.deep_view(),
            final(self).processes.deep_view() == old(self).processes.deep_view(),
            final(self).recording == old(self).recording,
    {
        self.filter_error = match validate_filter(self.filter.as_str()) {
            Ok(()) => None,
            Err(message) => Some(message),
        };
    }

    /// Drops every row with the given id.
    pub fn remove_event(&mut self, id: u64)
        ensures
            final(self).events.deep_view() == rows_without(old(self).events.deep_view(), id),
            final(self).processes.deep_view() == old(self).processes.deep_view(),
            final(self).selected_pid == old(self).selected_pid,
            final(self).selected_event == old(self).selected_event,
            final(self).recording == old(self).recording,
            final(self).filter@ == old(self).filter@,
    {
        let ghost initial = self.events.deep_view();
        let mut rest: Vec<NetworkEvent> = Vec::new();
        std::mem::swap(&mut rest, &mut self.events);
        let ghost n = rest@.len();
        while rest.len() > 0
            invariant
                initial.len() == n,
                rest@.len() <= n,
                rest.deep_view() == initial.skip(n - rest@.len()),
                self.events.deep_view() == rows_without(initial.take(n - rest@.len()), id),
                self.processes.deep_view() == old(self).processes.deep_view(),
                self.selected_pid == old(self).selected_pid,
                self.selected_event == old(self).selected_event,
                self.recording == old(self).recording,
                self.filter@ == old(self).filter@,
            decreases rest@.len(),
        {
            let ghost done = (n - rest@.len()) as int;
            let ghost before_rest = rest.deep_view();
            let ghost kept = self.events.deep_view();
            let e = rest.remove(0);
            assert(e@ == initial[done]) by {
                assert(before_rest[0] == initial.skip(done)[0]);
            }
            assert forall|k: int| 0 <= k < rest@.len() implies rest.deep_view()[k]
                == initial.skip(done + 1)[k] by {
                assert(rest.deep_view()[k] == before_rest[k + 1]);
                assert(before_rest[k + 1] == initial.skip(done)[k + 1]);
            }
            assert(rest.deep_view() =~= initial.skip(done + 1));
            assert(initial.take(done + 1).drop_last() =~= initial.take(done));
            if e.id != id {
                self.events.push(e);
                assert(self.events.deep_view() =~= kept.push(initial[done]));
            }
        }
        assert(initial.take(n as int) =~= initial);
    }

}

// ---------------------------------------------------------------------------
// Presentation helpers

/// A duration in seconds as `MM:SS`, minutes padded to two digits.
pub open spec fn time_text(seconds: u64) -> Seq<char> {
    two_digit_text((seconds / 60) as nat) + ":"@ + two_digit_text((seconds % 60) as nat)
}

/// Formats a duration in seconds as `MM:SS`.
pub fn format_time(seconds: u64) -> (r: String)
    ensures
        r@ == time_text(seconds),
{
    let mut out: Vec<char> = Vec::new();
    push_two_digits(&mut out, seconds / 60);
    extend_chars(&mut out, ":");
    push_two_digits(&mut out, seconds % 60);
    assert(out@ =~= time_text(seconds));
    string_from_chars(&out)
}

/// Headers as name and value pairs.
pub fn header_rows(headers: &[HttpHeader]) -> (r: Vec<(&str, String)>)
    ensures
        r@.len() == headers@.len(),
        forall|k: int|
            0 <= k < r@.len() ==> (#[trigger] r@[k]).0@ == headers@[k].name@ && r@[k].1@
                == headers@[k].value@,
{
    let mut out: Vec<(&str, String)> = Vec::new();
    let mut i: usize = 0;
    while i < headers.len()
        invariant
            i <= headers@.len(),
            out@.len() == i,
            forall|k: int|
                0 <= k < i ==> (#[trigger] out@[k]).0@ == headers@[k].name@ && out@[k].1@
                    == headers@[k].value@,
        decreases headers@.len() - i,
    {
        let header = &headers[i];
        out.push((header.name.as_str(), header.value.clone()));
        i = i + 1;
    }
    out
}

/// Unicode control characters (general category Cc), which is what
/// `char::is_control` tests.
pub open spec fn is_control(c: char) -> bool {
    (c as u32) <= 0x1f || (0x7f <= (c as u32) && (c as u32) <= 0x9f)
}

/// How many leading bytes of a body are inspected to tell text apart.
pub const TEXT_PROBE_BYTES: usize = 4096;

/// The leading bytes of a body that are inspected.
pub open spec fn text_probe(body: Seq<u8>) -> Seq<u8> {
    if body.len() <= TEXT_PROBE_BYTES {
        body
    } else {
        body.subrange(0, TEXT_PROBE_BYTES as int)
    }
}

/// Whether a body looks like text: its first 4096 bytes are valid UTF-8
/// with no control characters other than line feed, carriage return and tab.
pub open spec fn looks_like_text(body: Seq<u8>) -> bool {
    let preview = text_probe(body);
    &&& vstd::utf8::valid_utf8(preview)
    &&& forall|i: int|
        0 <= i < vstd::utf8::decode_utf8(preview).len() ==> {
            let c = #[trigger] vstd::utf8::decode_utf8(preview)[i];
            !is_control(c) || c == '\n' || c == '\r' || c == '\t'
        }
}

/// Whether a body looks like text.
pub fn is_probably_text(body: &[u8]) -> (r: bool)
    ensures
        r == looks_like_text(body@),
{
    let n = if body.len() <= TEXT_PROBE_BYTES {
        body.len()
    } else {
        TEXT_PROBE_BYTES
    };
    let preview = &body[0..n];
    assert(preview@ =~= text_probe(body@));
    let text = match crate::text::decode_utf8(preview) {
        Some(t) => t,
        None => return false,
    };
    let cs = chars_of(text.as_str());
    let mut i: usize = 0;
    while i < cs.len()
        invariant
            i <= cs@.len(),
            cs@ == vstd::utf8::decode_utf8(text_probe(body@)),
            forall|k: int|
                0 <= k < i ==> {
                    let c = #[trigger] cs@[k];
                    !is_control(c) || c == '\n' || c == '\r' || c == '\t'
                },
        decreases cs@.len() - i,
    {
        let c = cs[i];
        let v = c as u32;
        let control = v <= 0x1f || (0x7f <= v && v <= 0x9f);
        if control && c != '\n' && c != '\r' && c != '\t' {
            assert(vstd::utf8::decode_utf8(text_probe(body@))[i as int] == c);
            return false;
        }
        i = i + 1;
    }
    true
}

/// Whether a row is shown in the current traffic view: with `https_only`
/// only decoded HTTPS requests are, and without `show_differences` rows
/// whose fingerprint differs from their process's are hidden.
pub fn view_accepts(event: &NetworkEvent, https_only: bool, show_differences: bool) -> (r: bool)
    ensures
        r == ((!https_only || event.kind == EventKind::Https) && (show_differences
            || !event.ja4_outlier)),
{
    (!https_only || event.kind == EventKind::Https) && (show_differences || !event.ja4_outlier)
}

// ---------------------------------------------------------------------------
// Texts of the traffic view

/// The URL a row is copied as: its host followed by its path.
pub open spec fn row_url_text(e: RowView) -> Seq<char> {
    if e.path.len() == 0 {
        e.host
    } else {
        e.host + e.path
    }
}

/// The URL a row is copied as.
pub fn row_url(event: &NetworkEvent) -> (r: String)
    ensures
        r@ == row_url_text(event@),
{
    let path = chars_of(event.path.as_str());
    if path.len() == 0 {
        event.host.clone()
    } else {
        let mut out = chars_of(event.host.as_str());
        extend_chars(&mut out, event.path.as_str());
        string_from_chars(&out)
    }
}

/// What the empty table says, heading then text: paused with nothing
/// recorded, waiting for traffic, nothing matching the filter, fingerprint
/// differences hidden, or nothing for the selection.
pub open spec fn empty_table_text(
    recording: bool,
    has_events: bool,
    has_filter: bool,
    show_differences: bool,
) -> (Seq<char>, Seq<char>) {
    if !recording && !has_events {
        ("PAUSED"@, "Press Start recording to begin capturing traffic."@)
    } else if !has_events {
        ("WAITING FOR TRAFFIC"@, "Network events will appear here automatically."@)
    } else if has_filter {
        ("NO MATCHES"@, "Clear or adjust the filter to see more results."@)
    } else if !show_differences {
        ("DIFFERENCES HIDDEN"@, "Switch fingerprints to Show all to include JA4 differences."@)
    } else {
        ("NO TRAFFIC"@, "Select another process or switch the traffic view."@)
    }
}

/// What the empty table says, heading then text.
pub fn empty_table_message(
    recording: bool,
    has_events: bool,
    has_filter: bool,
    show_differences: bool,
) -> (r: (&'static str, &'static str))
    ensures
        (r.0@, r.1@) == empty_table_text(recording, has_events, has_filter, show_differences),
{
    if !recording && !has_events {
        ("PAUSED", "Press Start recording to begin capturing traffic.")
    } else if !has_events {
        ("WAITING FOR TRAFFIC", "Network events will appear here automatically.")
    } else if has_filter {
        ("NO MATCHES", "Clear or adjust the filter to see more results.")
    } else if !show_differences {
        ("DIFFERENCES HIDDEN", "Switch fingerprints to Show all to include JA4 differences.")
    } else {
        ("NO TRAFFIC", "Select another process or switch the traffic view.")
    }
}

/// The transport a row's traffic travels over: UDP for UDP and QUIC, TCP
/// otherwise.
pub open spec fn transport_text(kind: EventKind) -> Seq<char> {
    if kind == EventKind::Udp || kind == EventKind::Quic {
        "UDP"@
    } else {
        "TCP"@
    }
}

/// The transport a row's traffic travels over.
pub fn transport_label(kind: EventKind) -> (r: &'static str)
    ensures
        r@ == transport_text(kind),
{
    if kind == EventKind::Udp || kind == EventKind::Quic {
        "UDP"
    } else {
        "TCP"
    }
}

/// A row's JA4 fingerprint as shown, or why there is none.
pub open spec fn ja4_display_text(e: RowView) -> Seq<char> {
    match e.ja4 {
        Some(j) => j,
        None => "Unavailable (non-TLS or passthrough)"@,
    }
}

/// A row's JA4 fingerprint as shown.
pub fn ja4_text(event: &NetworkEvent) -> (r: String)
    ensures
        r@ == ja4_display_text(event@),
{
    match &event.ja4 {
        Some(j) => j.clone(),
        None => String::from_str("Unavailable (non-TLS or passthrough)"),
    }
}

/// How a row's fingerprint compares with its process's.
pub open spec fn fingerprint_text(e: RowView) -> Seq<char> {
    if e.ja4_outlier {
        "Differs from this process's session baseline"@
    } else if e.ja4 is Some {
        "Matches session baseline"@
    } else {
        "Not available"@
    }
}

/// How a row's fingerprint compares with its process's.
pub fn fingerprint_status(event: &NetworkEvent) -> (r: &'static str)
    ensures
        r@ == fingerprint_text(event@),
{
    if event.ja4_outlier {
        "Differs from this process's session baseline"
    } else if event.ja4.is_some() {
        "Matches session baseline"
    } else {
        "Not available"
    }
}

// ---------------------------------------------------------------------------
// Summary of the shown rows

/// The figures shown above the table for the rows on display.
#[derive(Debug, Clone, Copy, PartialEq, Eq, Structural)]
pub struct TrafficSummary {
    pub active: usize,
    pub http_requests: usize,
    pub packets: u64,
    pub uploaded: u64,
    pub downloaded: u64,
    pub hosts: usize,
    /// The mean duration of the rows that have one, in whole milliseconds.
    pub average_response_ms: Option<u64>,
}

/// The bytes sent over all rows.
pub open spec fn total_sent(s: Seq<RowView>) -> nat
    decreases s.len(),
{
    if s.len() == 0 {
        0
    } else {
        (total_sent(s.drop_last()) + s.last().bytes_sent) as nat
    }
}

/// The bytes received over all rows.
pub open spec fn total_received(s: Seq<RowView>) -> nat
    decreases s.len(),
{
    if s.len() == 0 {
        0
    } else {
        (total_received(s.drop_last()) + s.last().bytes_received) as nat
    }
}

/// The packets over all rows.
pub open spec fn total_packets(s: Seq<RowView>) -> nat
    decreases s.len(),
{
    if s.len() == 0 {
        0
    } else {
        (total_packets(s.drop_last()) + s.last().packet_count) as nat
    }
}

/// Whether a row shows an HTTP exchange.
pub open spec fn is_http_row(e: RowView) -> bool {
    e.kind == EventKind::Http || e.kind == EventKind::Https
}

/// How many rows show HTTP exchanges.
pub open spec fn http_rows(s: Seq<RowView>) -> nat
    decreases s.len(),
{
    if s.len() == 0 {
        0
    } else {
        http_rows(s.drop_last()) + if is_http_row(s.last()) {
            1nat
        } else {
            0nat
        }
    }
}

/// The durations of the rows that have one, added with saturation.
pub open spec fn duration_total(s: Seq<RowView>) -> u64
    decreases s.len(),
{
    if s.len() == 0 {
        0
    } else {
        let before = duration_total(s.drop_last());
        match s.last().duration_ms {
            Some(d) => if before + d > u64::MAX {
                u64::MAX
            } else {
                (before + d) as u64
            },
            None => before,
        }
    }
}

/// How many rows have a duration.
pub open spec fn timed_rows(s: Seq<RowView>) -> nat
    decreases s.len(),
{
    if s.len() == 0 {
        0
    } else {
        timed_rows(s.drop_last()) + if s.last().duration_ms is Some {
            1nat
        } else {
            0nat
        }
    }
}

/// The distinct hosts of the rows.
pub open spec fn hosts_of(s: Seq<RowView>) -> Set<Seq<char>> {
    s.map_values(|e: RowView| e.host).to_set()
}

/// The summary of the given rows.
pub open spec fn summary_of(s: Seq<RowView>) -> TrafficSummary {
    TrafficSummary {
        active: s.len() as usize,
        http_requests: http_rows(s) as usize,
        packets: total_packets(s) as u64,
        uploaded: total_sent(s) as u64,
        downloaded: total_received(s) as u64,
        hosts: hosts_of(s).len() as usize,
        average_response_ms: if timed_rows(s) == 0 {
            None
        } else {
            Some((duration_total(s) as nat / timed_rows(s)) as u64)
        },
    }
}

proof fn lemma_counts_bounded(s: Seq<RowView>)
    ensures
        http_rows(s) <= s.len(),
        timed_rows(s) <= s.len(),
    decreases s.len(),
{
    if s.len() > 0 {
        lemma_counts_bounded(s.drop_last());
    }
}

proof fn lemma_totals_grow(s: Seq<RowView>, i: int)
    requires
        0 <= i <= s.len(),
    ensures
        total_sent(s.take(i)) <= total_sent(s),
        total_received(s.take(i)) <= total_received(s),
        total_packets(s.take(i)) <= total_packets(s),
    decreases s.len() - i,
{
    if i < s.len() {
        lemma_totals_grow(s, i + 1);
        assert(s.take(i + 1).drop_last() =~= s.take(i));
    } else {
        assert(s.take(i) =~= s);
    }
}

/// The figures shown above the table for the given rows. The byte and
/// packet totals must fit in 64 bits.
pub fn traffic_summary(rows: &[&NetworkEvent]) -> (r: TrafficSummary)
    requires
        total_sent(rows@.map_values(|e: &NetworkEvent| e@)) <= u64::MAX,
        total_received(rows@.map_values(|e: &NetworkEvent| e@)) <= u64::MAX,
        total_packets(rows@.map_values(|e: &NetworkEvent| e@)) <= u64::MAX,
    ensures
        r == summary_of(rows@.map_values(|e: &NetworkEvent| e@)),
{
    let ghost s = rows@.map_values(|e: &NetworkEvent| e@);
    let mut sent: u64 = 0;
    let mut received: u64 = 0;
    let mut packets: u64 = 0;
    let mut http: usize = 0;
    let mut total: u64 = 0;
    let mut timed: u64 = 0;
    let mut hosts: Vec<Vec<char>> = Vec::new();
    let ghost mut seen: Seq<Seq<char>> = Seq::empty();
    let mut i: usize = 0;
    while i < rows.len()
        invariant
            i <= rows@.len(),
            s == rows@.map_values(|e: &NetworkEvent| e@),
            total_sent(s) <= u64::MAX,
            total_received(s) <= u64::MAX,
            total_packets(s) <= u64::MAX,
            sent == total_sent(s.take(i as int)),
            received == total_received(s.take(i as int)),
            packets == total_packets(s.take(i as int)),
            http == http_rows(s.take(i as int)),
            total == duration_total(s.take(i as int)),
            timed == timed_rows(s.take(i as int)),
            http <= i,
            timed <= i,
            seen.len() == hosts@.len(),
            forall|k: int| 0 <= k < seen.len() ==> #[trigger] seen[k] == hosts@[k]@,
            seen.no_duplicates(),
            seen.to_set() == hosts_of(s.take(i as int)),
        decreases rows@.len() - i,
    {
        let e = rows[i];
        let ghost prefix = s.take(i as int);
        proof {
            assert(s.take(i + 1).drop_last() =~= prefix);
            assert(s.take(i + 1).last() == e@);
            lemma_totals_grow(s, i + 1);
        }
        sent = sent + e.bytes_sent;
        received = received + e.bytes_received;
        packets = packets + e.packet_count;
        if e.kind == EventKind::Http || e.kind == EventKind::Https {
            http = http + 1;
        }
        match e.duration_ms {
            Some(d) => {
                total = total.saturating_add(d);
                timed = timed + 1;
            },
            None => {},
        }
        let host = chars_of(e.host.as_str());
        let mut k: usize = 0;
        let mut known = false;
        while k < hosts.len()
            invariant
                k <= hosts@.len(),
                seen.len() == hosts@.len(),
                forall|m: int| 0 <= m < seen.len() ==> #[trigger] seen[m] == hosts@[m]@,
                !known ==> forall|m: int| 0 <= m < k ==> seen[m] != host@,
                known ==> seen.contains(host@),
            decreases hosts@.len() - k,
        {
            if chars_equal(&hosts[k], &host) {
                known = true;
                assert(seen[k as int] == host@);
            }
            k = k + 1;
        }
        proof {
            let next = s.take(i + 1);
            assert(next.map_values(|e: RowView| e.host) =~= prefix.map_values(|e: RowView| e.host).push(
                e@.host,
            ));
            prefix.map_values(|e: RowView| e.host).lemma_push_to_set_commute(host@);
            seen.lemma_push_to_set_commute(host@);
            assert(hosts_of(next) == hosts_of(prefix).insert(host@));
            if known {
                assert(seen.to_set().contains(host@));
                assert(hosts_of(next) =~= hosts_of(prefix));
            }
        }
        if !known {
            proof {
                seen = seen.push(host@);
            }
            hosts.push(host);
        }
        i = i + 1;
    }
    proof {
        assert(s.take(rows@.len() as int) =~= s);
        seen.unique_seq_to_set();
    }
    let average_response_ms = if timed == 0 {
        None
    } else {
        Some(total / timed)
    };
    TrafficSummary {
        active: rows.len(),
        http_requests: http,
        packets,
        uploaded: sent,
        downloaded: received,
        hosts: hosts.len(),
        average_response_ms,
    }
}

} // verus!
