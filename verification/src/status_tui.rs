//! The status screen: what the keys do, and what is shown.

use vstd::prelude::*;
use vstd::string::*;
use crate::status::{AgentStatus, AgentView, EventView, StatusView, WorkspaceStatus};
use crate::text::{chars_text, decimal, push_decimal, text_chars};
use crate::wire::{char_is_control, control_free, is_control};

verus! {

/// The most lines of details.
pub const MAX_LINES: usize = 100;

/// The most characters of a line of details.
pub const MAX_LINE_CHARS: usize = 512;

/// How often the status is asked for again, in milliseconds.
pub const REFRESH_MS: u64 = 1_000;

/// What is shown below the status.
#[derive(Clone, Copy, Debug, PartialEq, Eq, Structural)]
pub enum TuiView {
    Status,
    Doctor,
    Logs,
    RestartConfirmation,
}

/// What a key asks for.
#[derive(Clone, Copy, Debug, PartialEq, Eq, Structural)]
pub enum TuiCommand {
    Ignore,
    RunDoctor,
    ShowLogs,
    ConfirmRestart,
    RestartBroker,
    Quit,
}

/// The state of the screen.
#[derive(Debug)]
pub struct TuiState {
    pub status: WorkspaceStatus,
    pub view: TuiView,
    pub quit: bool,
    pub details: Vec<String>,
}

/// The text that stands for a line that is not shown.
pub open spec fn redaction() -> Seq<char> {
    "[redacted operational log line]"@
}

/// What each of some lines says.
pub open spec fn line_views(lines: Seq<String>) -> Seq<Seq<char>> {
    lines.map_values(|l: String| l@)
}

/// What a key asks for in a view.
pub open spec fn command_for(view: TuiView, key: char) -> TuiCommand {
    if key == 'd' {
        TuiCommand::RunDoctor
    } else if key == 'l' {
        TuiCommand::ShowLogs
    } else if key == 'r' && view == TuiView::RestartConfirmation {
        TuiCommand::RestartBroker
    } else if key == 'r' {
        TuiCommand::ConfirmRestart
    } else if key == 'q' {
        TuiCommand::Quit
    } else {
        TuiCommand::Ignore
    }
}

/// The view that a key leads to.
pub open spec fn view_after(view: TuiView, key: char) -> TuiView {
    if key == 'd' {
        TuiView::Doctor
    } else if key == 'l' {
        TuiView::Logs
    } else if key == 'r' {
        TuiView::RestartConfirmation
    } else {
        view
    }
}

/// A character with its capital letters of ASCII made small.
pub open spec fn ascii_lower(c: char) -> char {
    if 'A' <= c && c <= 'Z' {
        ((c as u32 + 32) as u8) as char
    } else {
        c
    }
}

/// A text with its capital letters of ASCII made small.
pub open spec fn lowered(s: Seq<char>) -> Seq<char> {
    s.map_values(|c: char| ascii_lower(c))
}

/// A text stands somewhere in another.
pub open spec fn occurs(s: Seq<char>, needle: Seq<char>) -> bool {
    exists|i: int| occurs_at(s, needle, i)
}

/// A text stands at a place in another.
pub open spec fn occurs_at(s: Seq<char>, needle: Seq<char>, i: int) -> bool {
    0 <= i && i + needle.len() <= s.len() && s.subrange(i, i + needle.len() as int) == needle
}

/// A line holds a word, in any letters, that marks what must not be shown.
pub open spec fn marked_secret(line: Seq<char>) -> bool {
    let low = lowered(line);
    occurs(low, "bearer"@) || occurs(low, "token"@) || occurs(low, "payload"@) || occurs(
        low,
        "message"@,
    ) || occurs(low, "descriptor"@) || occurs(low, "task_id"@) || occurs(low, "task-"@)
}

/// A character that a line of details may show.
pub open spec fn showable() -> spec_fn(char) -> bool {
    |c: char| !is_control(c) || c == '\t'
}

/// A text cut to some characters.
pub open spec fn cut(s: Seq<char>, n: int) -> Seq<char> {
    if s.len() <= n {
        s
    } else {
        s.take(n)
    }
}

/// A line of details as it is shown.
pub open spec fn shown_line(line: Seq<char>) -> Seq<char> {
    if marked_secret(line) {
        redaction()
    } else {
        cut(line.filter(showable()), MAX_LINE_CHARS as int)
    }
}

fn lower_char(c: char) -> (r: char)
    ensures
        r == ascii_lower(c),
{
    if 'A' <= c && c <= 'Z' {
        ((c as u32 + 32) as u8) as char
    } else {
        c
    }
}

fn lower_chars(s: &str) -> (r: Vec<char>)
    ensures
        r@ == lowered(s@),
{
    let mut out: Vec<char> = Vec::new();
    for c in it: s.chars()
        invariant
            it.seq() == s@,
            out@ == lowered(s@).take(it.index() as int),
    {
        let ghost before = out@;
        assert(s@[it.index() as int] == c);
        out.push(lower_char(c));
        assert(out@ =~= lowered(s@).take(it.index() + 1));
    }
    assert(out@ =~= lowered(s@));
    out
}

/// A text with its capital letters of ASCII made small.
pub fn lower_text(s: &str) -> (r: String)
    ensures
        r@ == lowered(s@),
{
    let chars = lower_chars(s);
    chars_text(chars.as_slice())
}

fn chars_at(s: &[char], needle: &[char], i: usize) -> (r: bool)
    requires
        i + needle@.len() <= s@.len(),
    ensures
        r == occurs_at(s@, needle@, i as int),
{
    let n: usize = s.len();
    let mut j: usize = 0;
    while j < needle.len()
        invariant
            j <= needle.len(),
            n == s@.len(),
            i + needle@.len() <= n,
            forall|k: int| 0 <= k < j ==> s@[i + k] == #[trigger] needle@[k],
        decreases needle.len() - j,
    {
        if s[i + j] != needle[j] {
            assert(s@.subrange(i as int, i + needle@.len())[j as int] != needle@[j as int]);
            return false;
        }
        j += 1;
    }
    assert(s@.subrange(i as int, i + needle@.len() as int) =~= needle@);
    true
}

fn contains_text(s: &[char], needle: &str) -> (r: bool)
    ensures
        r == occurs(s@, needle@),
{
    let wanted = text_chars(needle);
    if wanted.len() > s.len() {
        return false;
    }
    let last: usize = s.len() - wanted.len();
    let mut i: usize = 0;
    while i < last
        invariant
            wanted@ == needle@,
            last == s@.len() - wanted@.len(),
            i <= last,
            forall|k: int| 0 <= k < i ==> !occurs_at(s@, needle@, k),
        decreases last - i,
    {
        if chars_at(s, wanted.as_slice(), i) {
            return true;
        }
        i += 1;
    }
    let found = chars_at(s, wanted.as_slice(), last);
    assert(!found ==> forall|k: int| !occurs_at(s@, needle@, k));
    found
}

fn is_marked_secret(line: &str) -> (r: bool)
    ensures
        r == marked_secret(line@),
{
    let low = lower_chars(line);
    let low = low.as_slice();
    contains_text(low, "bearer") || contains_text(low, "token") || contains_text(low, "payload")
        || contains_text(low, "message") || contains_text(low, "descriptor") || contains_text(
        low,
        "task_id",
    ) || contains_text(low, "task-")
}

proof fn lemma_filter_grows(s: Seq<char>, i: int)
    requires
        0 <= i < s.len(),
    ensures
        s.take(i + 1).filter(showable()) == if showable()(s[i]) {
            s.take(i).filter(showable()).push(s[i])
        } else {
            s.take(i).filter(showable())
        },
        s.take(i).filter(showable()).len() <= s.filter(showable()).len(),
        s.filter(showable()).take(s.take(i).filter(showable()).len() as int) == s.take(i).filter(
            showable(),
        ),
{
    crate::pi::lemma_filter_next(s, showable(), i);
    assert(s =~= s.take(i) + s.skip(i));
    s.take(i).lemma_filter_len(showable());
    Seq::filter_distributes_over_add(s.take(i), s.skip(i), showable());
    assert(s.filter(showable()) =~= s.take(i).filter(showable()) + s.skip(i).filter(showable()));
    assert(s.filter(showable()).take(s.take(i).filter(showable()).len() as int) =~= s.take(
        i,
    ).filter(showable()));
}

/// A line of details as it is shown: nothing of a line that holds a marked word,
/// and of another line up to 512 characters without control characters.
pub fn sanitize_line(line: &str) -> (r: String)
    ensures
        r@ == shown_line(line@),
{
    if is_marked_secret(line) {
        return "[redacted operational log line]".to_owned();
    }
    let ghost kept = line@.filter(showable());
    let mut out: Vec<char> = Vec::new();
    proof {
        reveal(Seq::filter);
        assert(line@.take(0).filter(showable()) =~= Seq::empty());
    }
    for c in it: line.chars()
        invariant
            it.seq() == line@,
            !marked_secret(line@),
            kept == line@.filter(showable()),
            out@ == line@.take(it.index() as int).filter(showable()),
            out@.len() <= MAX_LINE_CHARS,
    {
        let ghost i: int = it.index() as int;
        proof {
            assert(line@[i] == c);
            lemma_filter_grows(line@, i);
        }
        if !char_is_control(c) || c == '\t' {
            if out.len() == MAX_LINE_CHARS {
                proof {
                    if i + 1 < line@.len() {
                        lemma_filter_grows(line@, i + 1);
                    } else {
                        assert(line@.take(i + 1) =~= line@);
                    }
                    assert(kept.len() > MAX_LINE_CHARS);
                    assert(kept.take(MAX_LINE_CHARS as int) == out@);
                }
                return chars_text(out.as_slice());
            }
            out.push(c);
        }
    }
    assert(line@.take(line@.len() as int) =~= line@);
    chars_text(out.as_slice())
}

/// A line without control characters is shown without any of the marked words, in
/// any letters.
pub proof fn law_shown_lines_hold_no_marked_words(line: Seq<char>)
    requires
        control_free(line),
    ensures
        !marked_secret(shown_line(line)),
{
    if marked_secret(line) {
        lemma_redaction_is_clean();
    } else {
        let kept = line.filter(showable());
        lemma_filter_all(line);
        assert(kept == line);
        let out = cut(line, MAX_LINE_CHARS as int);
        assert forall|needle: Seq<char>| occurs(lowered(out), needle) implies occurs(
            lowered(line),
            needle,
        ) by {
            let i = choose|i: int| occurs_at(lowered(out), needle, i);
            assert(occurs_at(lowered(out), needle, i));
            assert(lowered(line).subrange(i, i + needle.len()) =~= lowered(out).subrange(
                i,
                i + needle.len(),
            ));
            assert(occurs_at(lowered(line), needle, i));
        }
    }
}

proof fn lemma_filter_all(s: Seq<char>)
    requires
        control_free(s),
    ensures
        s.filter(showable()) == s,
    decreases s.len(),
{
    reveal(Seq::filter);
    if s.len() > 0 {
        let front = s.drop_last();
        assert(control_free(front)) by {
            assert forall|i: int| 0 <= i < front.len() implies !is_control(#[trigger] front[i]) by {
                assert(front[i] == s[i]);
            }
        }
        lemma_filter_all(front);
        assert(!is_control(s[s.len() - 1]));
        assert(front.push(s.last()) =~= s);
    } else {
        assert(s.filter(showable()) =~= s);
    }
}

proof fn lemma_redaction_is_clean()
    ensures
        !marked_secret(redaction()),
{
    reveal_strlit("[redacted operational log line]");
    reveal_strlit("bearer");
    reveal_strlit("token");
    reveal_strlit("payload");
    reveal_strlit("message");
    reveal_strlit("descriptor");
    reveal_strlit("task_id");
    reveal_strlit("task-");
    let low = lowered(redaction());
    assert(low.len() == 31);
    assert forall|i: int| 0 <= i < 31 implies #[trigger] low[i] == redaction()[i] by {}
    assert forall|needle: Seq<char>, i: int| occurs_at(low, needle, i) && needle.len() > 1 implies low[i]
        == needle[0] && low[i + 1] == needle[1] by {
        assert(low.subrange(i, i + needle.len())[0] == needle[0]);
        assert(low.subrange(i, i + needle.len())[1] == needle[1]);
    }
}

impl TuiState {
    /// The screen for a status.
    pub fn new(status: WorkspaceStatus) -> (r: Self)
        ensures
            r.status == status,
            r.view == TuiView::Status,
            !r.quit,
            r.details@.len() == 0,
    {
        TuiState { status, view: TuiView::Status, quit: false, details: Vec::new() }
    }

    /// Takes a key: the view follows it, and the command says what is to be done.
    pub fn handle_key(&mut self, key: char) -> (r: TuiCommand)
        ensures
            r == command_for(old(self).view, key),
            final(self).view == view_after(old(self).view, key),
            final(self).quit == (old(self).quit || key == 'q'),
            final(self).status == old(self).status,
            final(self).details == old(self).details,
    {
        if key == 'd' {
            self.view = TuiView::Doctor;
            TuiCommand::RunDoctor
        } else if key == 'l' {
            self.view = TuiView::Logs;
            TuiCommand::ShowLogs
        } else if key == 'r' {
            if self.view == TuiView::RestartConfirmation {
                TuiCommand::RestartBroker
            } else {
                self.view = TuiView::RestartConfirmation;
                TuiCommand::ConfirmRestart
            }
        } else if key == 'q' {
            self.quit = true;
            TuiCommand::Quit
        } else {
            TuiCommand::Ignore
        }
    }

    /// Shows lines of details, each as it may be shown.
    pub fn show_lines(&mut self, view: TuiView, lines: &Vec<String>)
        ensures
            final(self).view == view,
            final(self).status == old(self).status,
            final(self).quit == old(self).quit,
            line_views(final(self).details@) == cut_lines(line_views(lines@)).map_values(
                |l: Seq<char>| shown_line(l),
            ),
    {
        let ghost wanted = cut_lines(line_views(lines@)).map_values(
            |l: Seq<char>| shown_line(l),
        );
        let n: usize = if lines.len() <= MAX_LINES {
            lines.len()
        } else {
            MAX_LINES
        };
        let mut details: Vec<String> = Vec::new();
        let mut i: usize = 0;
        while i < n
            invariant
                i <= n,
                n <= lines.len(),
                n == wanted.len(),
                wanted == cut_lines(line_views(lines@)).map_values(
                    |l: Seq<char>| shown_line(l),
                ),
                line_views(details@) == wanted.take(i as int),
            decreases n - i,
        {
            let ghost before = line_views(details@);
            details.push(sanitize_line(lines[i].as_str()));
            assert(line_views(details@) =~= before.push(shown_line(lines@[i as int]@)));
            assert(wanted.take(i + 1) =~= wanted.take(i as int).push(wanted[i as int]));
            i += 1;
        }
        assert(wanted.take(i as int) =~= wanted);
        self.view = view;
        self.details = details;
    }

    /// Shows how many lines a log has, and nothing of what they say.
    pub fn show_logs(&mut self, lines: &Vec<String>)
        ensures
            final(self).view == TuiView::Logs,
            final(self).status == old(self).status,
            final(self).quit == old(self).quit,
            line_views(final(self).details@) == shown_logs(lines@.len()),
    {
        let n: usize = if lines.len() <= MAX_LINES {
            lines.len()
        } else {
            MAX_LINES
        };
        let mut details: Vec<String> = Vec::new();
        let mut i: usize = 0;
        while i < n
            invariant
                i <= n,
                details@.len() == i,
                forall|k: int| 0 <= k < i ==> (#[trigger] details@[k])@ == redaction(),
            decreases n - i,
        {
            details.push("[redacted operational log line]".to_owned());
            i += 1;
        }
        if details.len() == 0 {
            details.push("No plugin log entries are available.".to_owned());
        }
        assert(line_views(details@) =~= shown_logs(lines@.len()));
        self.view = TuiView::Logs;
        self.details = details;
    }

    /// Takes a key press: only a plain character counts.
    pub fn dispatch_key(&mut self, pressed: bool, plain: bool, character: Option<char>) -> (r:
        TuiCommand)
        ensures
            r == if pressed && plain && character is Some {
                command_for(old(self).view, character->0)
            } else {
                TuiCommand::Ignore
            },
            final(self).view == if pressed && plain && character is Some {
                view_after(old(self).view, character->0)
            } else {
                old(self).view
            },
            final(self).quit == (old(self).quit || (pressed && plain && character == Some('q'))),
            final(self).status == old(self).status,
            final(self).details == old(self).details,
    {
        if !pressed || !plain {
            return TuiCommand::Ignore;
        }
        match character {
            Some(key) => self.handle_key(key),
            None => TuiCommand::Ignore,
        }
    }

    /// Takes what a restart came to: a new status, or nothing of the error but
    /// that there was one.
    pub fn restarted(&mut self, outcome: Option<WorkspaceStatus>)
        ensures
            outcome is Some ==> final(self).status == outcome->0 && !final(self).quit
                && final(self).details@.len() == 0,
            outcome is None ==> final(self).status == old(self).status && final(self).quit
                == old(self).quit && line_views(final(self).details@) == seq![
                shown_line("Broker restart failed closed."@),
            ],
            final(self).view == TuiView::Status,
    {
        match outcome {
            Some(status) => {
                *self = TuiState::new(status);
            },
            None => {
                let mut lines: Vec<String> = Vec::new();
                lines.push("Broker restart failed closed.".to_owned());
                self.show_lines(TuiView::Status, &lines);
                assert(cut_lines(line_views(lines@)) =~= seq!["Broker restart failed closed."@]);
                assert(line_views(self.details@) =~= seq![
                    shown_line("Broker restart failed closed."@),
                ]);
            },
        }
    }

    /// Takes the status that a refresh gave, if it gave one.
    pub fn refreshed(&mut self, status: Option<WorkspaceStatus>)
        ensures
            final(self).status == match status {
                Some(s) => s,
                None => old(self).status,
            },
            final(self).view == old(self).view,
            final(self).quit == old(self).quit,
            final(self).details == old(self).details,
    {
        if let Some(status) = status {
            self.status = status;
        }
    }
}

/// The first hundred of some lines.
pub open spec fn cut_lines(lines: Seq<Seq<char>>) -> Seq<Seq<char>> {
    if lines.len() <= MAX_LINES {
        lines
    } else {
        lines.take(MAX_LINES as int)
    }
}

/// What is shown of a log of some lines.
pub open spec fn shown_logs(n: nat) -> Seq<Seq<char>> {
    if n == 0 {
        seq!["No plugin log entries are available."@]
    } else if n <= MAX_LINES {
        Seq::new(n, |i: int| redaction())
    } else {
        Seq::new(MAX_LINES as nat, |i: int| redaction())
    }
}

/// Logs are redacted: what is shown of two logs of the same length is the same,
/// whatever their lines say, and it holds none of the marked words.
pub proof fn law_logs_show_nothing_of_their_lines(n: nat, i: int)
    requires
        n > 0,
        0 <= i < shown_logs(n).len(),
    ensures
        shown_logs(n)[i] == redaction(),
        !marked_secret(shown_logs(n)[i]),
        shown_logs(n).len() <= MAX_LINES,
{
    lemma_redaction_is_clean();
}

/// The broker is restarted only at a second press of the key: the first one only
/// asks for it, every other view is left by it, and no other key leads to either.
pub proof fn law_restart_is_confirmed(view: TuiView, key: char)
    ensures
        command_for(view, key) == TuiCommand::RestartBroker ==> key == 'r' && view
            == TuiView::RestartConfirmation,
        view_after(view, key) == TuiView::RestartConfirmation && view
            != TuiView::RestartConfirmation ==> key == 'r' && command_for(view, key)
            == TuiCommand::ConfirmRestart,
{
}

/// The line of one check of the doctor.
pub fn doctor_line(code: &str, summary: &str) -> (r: String)
    ensures
        r@ == code@ + " · "@ + summary@,
{
    let mut line = code.to_owned();
    line.append(" · ");
    line.append(summary);
    line
}

/// The line of an agent.
pub open spec fn agent_line(a: AgentView) -> Seq<char> {
    a.role + " · "@ + a.canonical_name + " · "@ + a.status + "\n"@
}

/// The lines of some agents.
pub open spec fn agent_lines(agents: Seq<AgentView>) -> Seq<char>
    decreases agents.len(),
{
    if agents.len() == 0 {
        Seq::empty()
    } else {
        agent_lines(agents.drop_last()) + agent_line(agents.last())
    }
}

/// Some lines, each ended.
pub open spec fn detail_lines(lines: Seq<Seq<char>>) -> Seq<char>
    decreases lines.len(),
{
    if lines.len() == 0 {
        Seq::empty()
    } else {
        detail_lines(lines.drop_last()) + lines.last() + "\n"@
    }
}

/// The lines of the broker, the storage and the agents.
pub open spec fn head_text(s: StatusView) -> Seq<char> {
    "Herdr A2A · workspace: "@ + s.workspace_id + "\nBroker     ● "@ + s.broker
        + "\nStorage    ● "@ + s.storage + "\n\nAgents\n"@ + (if s.agents.len() == 0 {
        "none connected\n"@
    } else {
        agent_lines(s.agents)
    })
}

/// The lines of the tasks.
pub open spec fn task_text(s: StatusView) -> Seq<char> {
    "\nTasks\nqueued "@ + decimal(s.tasks.queued as nat) + " · leased "@ + decimal(
        s.tasks.leased as nat,
    ) + " · waiting reply "@ + decimal(s.tasks.waiting_reply as nat) + " · terminal "@ + decimal(
        s.tasks.terminal as nat,
    ) + "\n"@
}

/// The lines of the last event.
pub open spec fn event_text(event: Option<EventView>) -> Seq<char> {
    match event {
        None => "\nLast event\nnone\n"@,
        Some(e) => "\nLast event\n"@ + e.canonical_name + " "@ + e.kind + " · "@ + decimal(
            e.unix_time as nat,
        ) + "\n"@,
    }
}

/// The lines below the status.
pub open spec fn view_text(view: TuiView, details: Seq<Seq<char>>) -> Seq<char> {
    match view {
        TuiView::Status => Seq::empty(),
        TuiView::RestartConfirmation =>
            "\nPress [r] again to restart the proved workspace broker.\n"@,
        _ => "\n"@ + detail_lines(details),
    }
}

/// The screen.
pub open spec fn screen(s: StatusView, view: TuiView, details: Seq<Seq<char>>) -> Seq<char> {
    head_text(s) + task_text(s) + event_text(s.last_event) + view_text(view, details)
        + "\n[d] Doctor  [l] Logs  [r] Restart broker  [q] Close"@
}

fn push_agents(out: &mut String, agents: &Vec<AgentStatus>)
    ensures
        final(out)@ == old(out)@ + agent_lines(crate::status::agent_views(agents@)),
{
    let ghost v = crate::status::agent_views(agents@);
    let ghost start = out@;
    let mut i: usize = 0;
    assert(start + agent_lines(v.take(0)) =~= start);
    while i < agents.len()
        invariant
            i <= agents.len(),
            v == crate::status::agent_views(agents@),
            out@ == start + agent_lines(v.take(i as int)),
        decreases agents.len() - i,
    {
        let agent = &agents[i];
        let ghost before = out@;
        out.append(agent.role.as_str());
        out.append(" · ");
        out.append(agent.canonical_name.as_str());
        out.append(" · ");
        out.append(agent.status.as_str());
        out.append("\n");
        proof {
            assert(v[i as int] == agent@);
            assert(out@ =~= before + agent_line(agent@));
            assert(v.take(i + 1).drop_last() =~= v.take(i as int));
            assert(v.take(i + 1).last() == v[i as int]);
            assert(out@ =~= start + agent_lines(v.take(i + 1)));
        }
        i += 1;
    }
    assert(v.take(i as int) =~= v);
}

fn push_details(out: &mut String, lines: &Vec<String>)
    ensures
        final(out)@ == old(out)@ + detail_lines(line_views(lines@)),
{
    let ghost v = line_views(lines@);
    let ghost start = out@;
    let mut i: usize = 0;
    assert(start + detail_lines(v.take(0)) =~= start);
    while i < lines.len()
        invariant
            i <= lines.len(),
            v == line_views(lines@),
            out@ == start + detail_lines(v.take(i as int)),
        decreases lines.len() - i,
    {
        let ghost before = out@;
        out.append(lines[i].as_str());
        out.append("\n");
        proof {
            assert(v[i as int] == lines@[i as int]@);
            assert(v.take(i + 1).drop_last() =~= v.take(i as int));
            assert(v.take(i + 1).last() == v[i as int]);
            assert(out@ =~= start + detail_lines(v.take(i + 1)));
        }
        i += 1;
    }
    assert(v.take(i as int) =~= v);
}

fn push_head(out: &mut String, status: &WorkspaceStatus)
    ensures
        final(out)@ == old(out)@ + head_text(status@),
{
    let ghost start = out@;
    out.append("Herdr A2A · workspace: ");
    out.append(status.workspace_id.as_str());
    out.append("\nBroker     ● ");
    out.append(status.broker.as_str());
    out.append("\nStorage    ● ");
    out.append(status.storage.as_str());
    out.append("\n\nAgents\n");
    if status.agents.len() == 0 {
        out.append("none connected\n");
    } else {
        push_agents(out, &status.agents);
    }
    assert(out@ =~= start + head_text(status@));
}

fn push_tasks(out: &mut String, status: &WorkspaceStatus)
    ensures
        final(out)@ == old(out)@ + task_text(status@),
{
    let ghost start = out@;
    out.append("\nTasks\nqueued ");
    push_decimal(out, status.tasks.queued);
    out.append(" · leased ");
    push_decimal(out, status.tasks.leased);
    out.append(" · waiting reply ");
    push_decimal(out, status.tasks.waiting_reply);
    out.append(" · terminal ");
    push_decimal(out, status.tasks.terminal);
    out.append("\n");
    assert(out@ =~= start + task_text(status@));
}

fn push_event(out: &mut String, status: &WorkspaceStatus)
    ensures
        final(out)@ == old(out)@ + event_text(status@.last_event),
{
    let ghost start = out@;
    match &status.last_event {
        None => out.append("\nLast event\nnone\n"),
        Some(event) => {
            out.append("\nLast event\n");
            out.append(event.canonical_name.as_str());
            out.append(" ");
            out.append(event.kind.as_str());
            out.append(" · ");
            push_decimal(out, event.unix_time);
            out.append("\n");
        },
    }
    assert(out@ =~= start + event_text(status@.last_event));
}

/// The screen.
pub fn render(state: &TuiState) -> (r: String)
    ensures
        r@ == screen(state.status@, state.view, line_views(state.details@)),
{
    let mut out = String::new();
    push_head(&mut out, &state.status);
    assert(out@ =~= head_text(state.status@));
    push_tasks(&mut out, &state.status);
    push_event(&mut out, &state.status);
    let ghost before = out@;
    match state.view {
        TuiView::Status => {},
        TuiView::RestartConfirmation => out.append(
            "\nPress [r] again to restart the proved workspace broker.\n",
        ),
        _ => {
            out.append("\n");
            push_details(&mut out, &state.details);
        },
    }
    assert(out@ =~= before + view_text(state.view, line_views(state.details@)));
    out.append("\n[d] Doctor  [l] Logs  [r] Restart broker  [q] Close");
    out
}

proof fn lemma_lines_grow<T>(items: Seq<T>, line: spec_fn(T) -> Seq<char>, i: int)
    requires
        0 <= i < items.len(),
    ensures
        items.take(i + 1).map_values(line).flatten_alt() == items.take(i).map_values(
            line,
        ).flatten_alt() + line(items[i]),
{
    let grown = items.take(i + 1).map_values(line);
    assert(grown.drop_last() =~= items.take(i).map_values(line));
    assert(grown.last() == line(items[i]));
}

/// The agents are shown in their order, each in one line of its own with its role, its
/// canonical name and its status.
pub proof fn law_each_agent_has_its_line(agents: Seq<AgentView>)
    ensures
        agent_lines(agents) == agents.map_values(
            |a: AgentView| a.role + " · "@ + a.canonical_name + " · "@ + a.status + "\n"@,
        ).flatten(),
{
    lemma_agent_lines(agents, agents.len() as int);
    assert(agents.take(agents.len() as int) =~= agents);
    agents.map_values(
        |a: AgentView| a.role + " · "@ + a.canonical_name + " · "@ + a.status + "\n"@,
    ).lemma_flatten_and_flatten_alt_are_equivalent();
}

proof fn lemma_agent_lines(agents: Seq<AgentView>, n: int)
    requires
        0 <= n <= agents.len(),
    ensures
        agent_lines(agents.take(n)) == agents.take(n).map_values(
            |a: AgentView| a.role + " · "@ + a.canonical_name + " · "@ + a.status + "\n"@,
        ).flatten_alt(),
    decreases n,
{
    let line = |a: AgentView| a.role + " · "@ + a.canonical_name + " · "@ + a.status + "\n"@;
    if n == 0 {
        assert(agents.take(0).map_values(line) =~= Seq::<Seq<char>>::empty());
    } else {
        lemma_agent_lines(agents, n - 1);
        lemma_lines_grow(agents, line, n - 1);
        assert(agents.take(n).drop_last() =~= agents.take(n - 1));
        assert(agents.take(n).last() == agents[n - 1]);
    }
}

/// The lines of details are shown in their order, each ended.
pub proof fn law_each_detail_has_its_line(lines: Seq<Seq<char>>)
    ensures
        detail_lines(lines) == lines.map_values(|l: Seq<char>| l + "\n"@).flatten(),
{
    lemma_detail_lines(lines, lines.len() as int);
    assert(lines.take(lines.len() as int) =~= lines);
    lines.map_values(|l: Seq<char>| l + "\n"@).lemma_flatten_and_flatten_alt_are_equivalent();
}

proof fn lemma_detail_lines(lines: Seq<Seq<char>>, n: int)
    requires
        0 <= n <= lines.len(),
    ensures
        detail_lines(lines.take(n)) == lines.take(n).map_values(
            |l: Seq<char>| l + "\n"@,
        ).flatten_alt(),
    decreases n,
{
    let line = |l: Seq<char>| l + "\n"@;
    if n == 0 {
        assert(lines.take(0).map_values(line) =~= Seq::<Seq<char>>::empty());
    } else {
        lemma_detail_lines(lines, n - 1);
        lemma_lines_grow(lines, line, n - 1);
        assert(lines.take(n).drop_last() =~= lines.take(n - 1));
        assert(lines.take(n).last() == lines[n - 1]);
        assert(detail_lines(lines.take(n)) =~= detail_lines(lines.take(n - 1)) + (lines[n - 1]
            + "\n"@));
    }
}

/// A screen shows the status that it is given and nothing of another: its workspace, its
/// broker and storage, its agents, its four counts of tasks in their places, its last
/// event, then the view, and the keys at the end. The details are shown only in the views
/// that have any.
pub proof fn law_screen_shows_the_status(s: StatusView, view: TuiView, details: Seq<Seq<char>>)
    ensures
        ({
            let agents = if s.agents.len() == 0 {
                "none connected\n"@
            } else {
                agent_lines(s.agents)
            };
            let tasks = "\nTasks\nqueued "@ + decimal(s.tasks.queued as nat) + " · leased "@
                + decimal(s.tasks.leased as nat) + " · waiting reply "@ + decimal(
                s.tasks.waiting_reply as nat,
            ) + " · terminal "@ + decimal(s.tasks.terminal as nat) + "\n"@;
            let event = if s.last_event is None {
                "none"@
            } else {
                let e = s.last_event->0;
                e.canonical_name + " "@ + e.kind + " · "@ + decimal(e.unix_time as nat)
            };
            let below = if view == TuiView::Status {
                ""@
            } else if view == TuiView::RestartConfirmation {
                "\nPress [r] again to restart the proved workspace broker.\n"@
            } else {
                "\n"@ + detail_lines(details)
            };
            screen(s, view, details) == "Herdr A2A · workspace: "@ + s.workspace_id
                + "\nBroker     ● "@ + s.broker + "\nStorage    ● "@ + s.storage
                + "\n\nAgents\n"@ + agents + tasks + "\nLast event\n"@ + event + "\n"@ + below
                + "\n[d] Doctor  [l] Logs  [r] Restart broker  [q] Close"@
        }),
{
    reveal_strlit("");
    assert(""@ =~= Seq::<char>::empty());
    reveal_strlit("\nLast event\nnone\n");
    reveal_strlit("\nLast event\n");
    reveal_strlit("none");
    reveal_strlit("\n");
    assert("\nLast event\nnone\n"@ =~= "\nLast event\n"@ + "none"@ + "\n"@);
    let agents = if s.agents.len() == 0 {
        "none connected\n"@
    } else {
        agent_lines(s.agents)
    };
    let event = if s.last_event is None {
        "none"@
    } else {
        let e = s.last_event->0;
        e.canonical_name + " "@ + e.kind + " · "@ + decimal(e.unix_time as nat)
    };
    assert(event_text(s.last_event) =~= "\nLast event\n"@ + event + "\n"@);
    let head = "Herdr A2A · workspace: "@ + s.workspace_id + "\nBroker     ● "@ + s.broker
        + "\nStorage    ● "@ + s.storage + "\n\nAgents\n"@ + agents;
    assert(head_text(s) =~= head);
    let below = if view == TuiView::Status {
        ""@
    } else if view == TuiView::RestartConfirmation {
        "\nPress [r] again to restart the proved workspace broker.\n"@
    } else {
        "\n"@ + detail_lines(details)
    };
    assert(view_text(view, details) =~= below);
    let keys = "\n[d] Doctor  [l] Logs  [r] Restart broker  [q] Close"@;
    assert(screen(s, view, details) =~= head + task_text(s) + "\nLast event\n"@ + event + "\n"@
        + below + keys);
}

/// Each key does what the last line of the screen says, and any other does nothing: it
/// asks for nothing and leaves the view.
pub proof fn law_keys_do_what_the_screen_says(view: TuiView, key: char)
    ensures
        key == 'd' ==> command_for(view, key) == TuiCommand::RunDoctor && view_after(view, key)
            == TuiView::Doctor,
        key == 'l' ==> command_for(view, key) == TuiCommand::ShowLogs && view_after(view, key)
            == TuiView::Logs,
        key == 'q' ==> command_for(view, key) == TuiCommand::Quit && view_after(view, key) == view,
        key == 'r' ==> view_after(view, key) == TuiView::RestartConfirmation && command_for(
            view_after(view, key),
            key,
        ) == TuiCommand::RestartBroker,
        key != 'd' && key != 'l' && key != 'q' && key != 'r' ==> command_for(view, key)
            == TuiCommand::Ignore && view_after(view, key) == view,
{
}

/// A line that spells one of the marked words anywhere, in small letters or capitals,
/// shows nothing of itself.
pub proof fn law_marked_lines_are_redacted(line: Seq<char>, word: Seq<char>, at: int)
    requires
        word == "bearer"@ || word == "token"@ || word == "payload"@ || word == "message"@ || word
            == "descriptor"@ || word == "task_id"@ || word == "task-"@,
        0 <= at,
        at + word.len() <= line.len(),
        forall|k: int|
            0 <= k < word.len() ==> line[at + k] == #[trigger] word[k] || ('A' <= line[at + k]
                && line[at + k] <= 'Z' && line[at + k] as u32 + 32 == word[k] as u32),
    ensures
        shown_line(line) == "[redacted operational log line]"@,
{
    let low = lowered(line);
    reveal_strlit("bearer");
    reveal_strlit("token");
    reveal_strlit("payload");
    reveal_strlit("message");
    reveal_strlit("descriptor");
    reveal_strlit("task_id");
    reveal_strlit("task-");
    assert forall|k: int| 0 <= k < word.len() implies low[at + k] == #[trigger] word[k] by {
        let c = line[at + k];
        if 'A' <= c && c <= 'Z' {
            assert(c as u32 + 32 == word[k] as u32 || c == word[k]);
            assert(!('A' <= word[k] && word[k] <= 'Z'));
        }
    }
    assert(low.subrange(at, at + word.len()) =~= word);
    assert(occurs_at(low, word, at));
}

/// A line that spells none of the marked words, has no control characters and is not too
/// long is shown as it is.
pub proof fn law_plain_lines_are_shown_whole(line: Seq<char>)
    requires
        control_free(line),
        line.len() <= 512,
        forall|at: int, word: Seq<char>|
            #![trigger occurs_at(lowered(line), word, at)]
            !(word.len() > 0 && occurs_at(lowered(line), word, at) && (word == "bearer"@ || word
                == "token"@ || word == "payload"@ || word == "message"@ || word == "descriptor"@
                || word == "task_id"@ || word == "task-"@)),
    ensures
        shown_line(line) == line,
{
    reveal_strlit("bearer");
    reveal_strlit("token");
    reveal_strlit("payload");
    reveal_strlit("message");
    reveal_strlit("descriptor");
    reveal_strlit("task_id");
    reveal_strlit("task-");
    lemma_filter_all(line);
}

/// What is shown of a line is never longer than 512 characters, and neither are more than
/// a hundred lines shown; those that are shown are the first, each in its place.
pub proof fn law_details_are_cut(lines: Seq<Seq<char>>, i: int)
    requires
        0 <= i < cut_lines(lines).len(),
    ensures
        shown_line(lines[i]).len() <= 512,
        cut_lines(lines).len() <= 100,
        cut_lines(lines)[i] == lines[i],
        lines.len() <= 100 ==> cut_lines(lines) == lines,
        lines.len() > 100 ==> cut_lines(lines).len() == 100,
{
    reveal_strlit("[redacted operational log line]");
}

/// A log has as many lines as it is shown to have, up to a hundred, and one that says so
/// where it has none.
pub proof fn law_logs_are_counted(n: nat)
    ensures
        shown_logs(n).len() == if n == 0 {
            1
        } else if n <= 100 {
            n as int
        } else {
            100
        },
        n == 0 ==> shown_logs(n)[0] == "No plugin log entries are available."@,
{
}

} // verus!
