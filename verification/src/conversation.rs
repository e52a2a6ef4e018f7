//! A conversation on the control connection as a whole: the lines that a client sends, and what it
//! is sent.
use vstd::prelude::*;

use crate::command;
use crate::command::{ActionView, ServerIp};
use crate::config::ConfigView;
use crate::laws;
use crate::path;
use crate::protocol;
use crate::protocol::{RequestView, TurnView};
use crate::session::{PathError, SessionView};

verus! {

/// What the machine answers while a command is handled; a command asks for some of it.
pub struct Answers {
    /// The parent of the current directory.
    pub up: Option<Seq<char>>,
    /// The address of the server, and the data port that was opened.
    pub ip: ServerIp,
    pub port: u16,
    /// The real path that was found for the one that the command names.
    pub found: Result<Seq<char>, PathError>,
    /// Whether there is a directory at that path.
    pub is_dir: bool,
    /// Why the file system refused to do what it was asked for, if it did.
    pub error: Option<Seq<char>>,
    /// The size of the file at that path, if it can be had.
    pub size: Option<u64>,
}

impl Answers {
    /// Whether a virtual directory stands for a directory that was found, so that the client can
    /// enter it.
    pub open spec fn fit(self, root_dir: Seq<char>) -> bool {
        self.is_dir ==> (self.found matches Ok(dir) ==> path::virtual_dir(root_dir, dir) is Some)
    }
}

/// One read from the control connection: the bytes that it gave and their text, and what the
/// machine answers while the line is handled.
pub struct ReadView {
    pub bytes_read: nat,
    pub line: Seq<char>,
    pub answers: Answers,
}

impl ReadView {
    /// What the read brought.
    pub open spec fn turn(self) -> TurnView {
        protocol::turn(self.bytes_read, self.line)
    }

    /// Whether the conversation is over after the read.
    pub open spec fn is_last(self) -> bool {
        match self.turn() {
            TurnView::Closed => true,
            TurnView::Blank => false,
            TurnView::Command(q) => q.cmd == "QUIT"@,
        }
    }
}

/// A command that was heard, and what the machine answered while it was handled.
pub struct HeardView {
    pub request: RequestView,
    pub answers: Answers,
}

/// The session and the reply once the work that a step asks for was done. There is no reply to a
/// client that would enter a directory for which no virtual directory stands.
pub open spec fn worked(s: SessionView, action: ActionView, w: Answers) -> (
    SessionView,
    Option<Seq<char>>,
) {
    match action {
        ActionView::Reply(reply) => (s, Some(reply)),
        ActionView::OpenPassive => (
            SessionView { pasv_listener: true, ..s },
            Some(command::passive_reply(w.ip, w.port)),
        ),
        ActionView::Resolve { .. } => (s, None),
        ActionView::SendListing { reply, .. } => (s, Some(reply)),
        ActionView::SendFile { reply, .. } => (s, Some(reply)),
        ActionView::ReceiveFile { reply, .. } => (s, Some(reply)),
        ActionView::CheckDir { path } => if w.is_dir && path::virtual_dir(
            s.root_dir,
            path,
        ) is None {
            (s, None)
        } else {
            let (t, reply) = command::changed_dir(s, path, w.is_dir);
            (t, Some(reply))
        },
        ActionView::CreateDir { name, .. } => (s, Some(command::created_reply(name, w.error))),
        ActionView::RemoveDir { .. } => (s, Some(command::removed_reply(w.error))),
        ActionView::DeleteFile { .. } => (s, Some(command::deleted_reply(w.error))),
        ActionView::MeasureFile { .. } => (s, Some(command::size_reply(w.size))),
    }
}

/// The session and the reply after a command.
pub open spec fn answered(s: SessionView, h: HeardView) -> (SessionView, Option<Seq<char>>) {
    let w = h.answers;
    let (s1, action) = command::obeyed(s, h.request.cmd, h.request.arg, w.up);
    match action {
        ActionView::Resolve { purpose, .. } => {
            let (s2, next) = command::resolved(s1, purpose, w.found);
            worked(s2, next, w)
        },
        _ => worked(s1, action, w),
    }
}

/// The session after some reads, and what the client was sent on the way: a line after the other
/// is read and answered, until the client closes the connection or quits, or there is no reply. No
/// socket fails.
pub open spec fn conversed(s: SessionView, reads: Seq<ReadView>) -> (SessionView, Seq<char>)
    decreases reads.len(),
{
    if reads.len() == 0 {
        (s, Seq::empty())
    } else {
        match reads[0].turn() {
            TurnView::Closed => (s, Seq::empty()),
            TurnView::Blank => conversed(s, reads.drop_first()),
            TurnView::Command(request) => {
                let (t, reply) = answered(s, HeardView { request, answers: reads[0].answers });
                match reply {
                    None => (t, Seq::empty()),
                    Some(reply) => if request.cmd == "QUIT"@ {
                        (t, reply)
                    } else {
                        let (u, rest) = conversed(t, reads.drop_first());
                        (u, reply + rest)
                    },
                }
            },
        }
    }
}

/// All that a client is sent.
pub open spec fn sent(
    config: ConfigView,
    root_dir: Seq<char>,
    windows: bool,
    reads: Seq<ReadView>,
) -> Seq<char> {
    protocol::GREETING@ + conversed(SessionView::initial(config, root_dir, windows), reads).1
}

/// The reads up to the one that ends the conversation.
pub open spec fn until_last(reads: Seq<ReadView>) -> Seq<ReadView>
    decreases reads.len(),
{
    if reads.len() == 0 {
        reads
    } else if reads[0].is_last() {
        reads.take(1)
    } else {
        reads.take(1) + until_last(reads.drop_first())
    }
}

/// The commands among some reads.
pub open spec fn commands(reads: Seq<ReadView>) -> Seq<HeardView>
    decreases reads.len(),
{
    if reads.len() == 0 {
        Seq::empty()
    } else {
        match reads[0].turn() {
            TurnView::Command(request) => seq![
                HeardView { request, answers: reads[0].answers },
            ] + commands(reads.drop_first()),
            _ => commands(reads.drop_first()),
        }
    }
}

/// The session after the first `n` of some commands.
pub open spec fn session_after(s: SessionView, heard: Seq<HeardView>, n: int) -> SessionView
    decreases n,
{
    if n <= 0 {
        s
    } else {
        answered(session_after(s, heard, n - 1), heard[n - 1]).0
    }
}

/// The replies to some commands that all have one: each is given by the session that the commands
/// before it left.
pub open spec fn replies(s: SessionView, heard: Seq<HeardView>) -> Seq<Seq<char>> {
    Seq::new(heard.len(), |i: int| answered(session_after(s, heard, i), heard[i]).1->0)
}

proof fn lemma_session_after_first(s: SessionView, heard: Seq<HeardView>, n: int)
    requires
        0 < n <= heard.len(),
    ensures
        session_after(s, heard, n) == session_after(
            answered(s, heard[0]).0,
            heard.drop_first(),
            n - 1,
        ),
    decreases n,
{
    if n == 1 {
        assert(session_after(s, heard, 0) == s);
    } else {
        lemma_session_after_first(s, heard, n - 1);
        assert(heard.drop_first()[n - 2] == heard[n - 1]);
    }
}

proof fn lemma_replies_after_first(s: SessionView, heard: Seq<HeardView>)
    requires
        heard.len() > 0,
    ensures
        replies(s, heard) == seq![answered(s, heard[0]).1->0] + replies(
            answered(s, heard[0]).0,
            heard.drop_first(),
        ),
{
    let t = answered(s, heard[0]).0;
    let rest = heard.drop_first();
    assert forall|i: int| 0 <= i < heard.len() implies #[trigger] replies(s, heard)[i] == (seq![
        answered(s, heard[0]).1->0,
    ] + replies(t, rest))[i] by {
        if i > 0 {
            lemma_session_after_first(s, heard, i);
            assert(rest[i - 1] == heard[i]);
        }
    }
    assert(replies(s, heard) =~= seq![answered(s, heard[0]).1->0] + replies(t, rest));
}

proof fn lemma_conversed(s: SessionView, reads: Seq<ReadView>)
    requires
        forall|i: int| 0 <= i < reads.len() ==> (#[trigger] reads[i]).answers.fit(s.root_dir),
    ensures
        ({
            let heard = commands(until_last(reads));
            conversed(s, reads) == (
                session_after(s, heard, heard.len() as int),
                replies(s, heard).flatten(),
            )
        }),
    decreases reads.len(),
{
    let heard = commands(until_last(reads));
    if reads.len() == 0 {
        assert(replies(s, heard) =~= Seq::empty());
    } else {
        let rest = reads.drop_first();
        let until = until_last(reads);
        assert(reads[0].answers.fit(s.root_dir));
        assert forall|i: int| 0 <= i < rest.len() implies (#[trigger] rest[i]).answers.fit(
            s.root_dir,
        ) by {
            assert(rest[i] == reads[i + 1]);
        }
        assert(until[0] == reads[0]);
        if reads[0].is_last() {
            assert(until.drop_first() =~= Seq::empty());
            assert(commands(until.drop_first()) =~= Seq::empty());
        } else {
            assert(until.drop_first() =~= until_last(rest));
        }
        match reads[0].turn() {
            TurnView::Closed => {
                assert(replies(s, heard) =~= Seq::empty());
            },
            TurnView::Blank => {
                lemma_conversed(s, rest);
            },
            TurnView::Command(request) => {
                let h = HeardView { request, answers: reads[0].answers };
                let t = answered(s, h).0;
                lemma_answer_is_reply(s, h);
                let later = commands(until.drop_first());
                assert(heard =~= seq![h] + later);
                assert(heard.drop_first() =~= later);
                lemma_replies_after_first(s, heard);
                lemma_session_after_first(s, heard, heard.len() as int);
                assert(replies(s, heard).drop_first() =~= replies(t, later));
                if reads[0].is_last() {
                    assert(replies(t, later) =~= Seq::empty());
                    assert(replies(s, heard).first() == answered(s, h).1->0);
                    assert(replies(t, later).flatten() =~= Seq::empty());
                    assert(replies(s, heard).flatten() =~= answered(s, h).1->0);
                } else {
                    lemma_conversed(t, rest);
                }
            },
        }
    }
}

proof fn lemma_until_last(reads: Seq<ReadView>)
    ensures
        until_last(reads).is_prefix_of(reads),
        forall|i: int|
            0 <= i < until_last(reads).len() - 1 ==> !(#[trigger] until_last(reads)[i]).is_last(),
        until_last(reads).len() < reads.len() ==> until_last(reads).last().is_last(),
    decreases reads.len(),
{
    if reads.len() > 0 && !reads[0].is_last() {
        let rest = until_last(reads.drop_first());
        lemma_until_last(reads.drop_first());
        assert(until_last(reads) =~= reads.take(1) + rest);
        assert forall|i: int| 0 <= i < until_last(reads).len() - 1 implies !(#[trigger] until_last(
            reads,
        )[i]).is_last() by {
            if i > 0 {
                assert(until_last(reads)[i] == rest[i - 1]);
            }
        }
        assert(until_last(reads) =~= reads.subrange(0, until_last(reads).len() as int)) by {
            assert forall|i: int| 0 <= i < until_last(reads).len() implies #[trigger] until_last(
                reads,
            )[i] == reads[i] by {
                if i > 0 {
                    assert(until_last(reads)[i] == rest[i - 1]);
                    assert(rest[i - 1] == reads.drop_first()[i - 1]);
                }
            }
        }
    } else if reads.len() > 0 {
        assert(until_last(reads) =~= reads.subrange(0, 1));
    } else {
        assert(until_last(reads) =~= reads.subrange(0, 0));
    }
}

/// What a client is sent is the greeting and then the replies to its commands, in the order of the
/// commands, and nothing else. One session, which begins anew for the connection, answers all of
/// them. The commands are those that were read until the client closed the connection or quit:
/// no read before the last of these ends the conversation, and none is taken after one that does.
pub proof fn law_conversation(
    config: ConfigView,
    root_dir: Seq<char>,
    windows: bool,
    reads: Seq<ReadView>,
)
    requires
        forall|i: int| 0 <= i < reads.len() ==> (#[trigger] reads[i]).answers.fit(root_dir),
    ensures
        ({
            let s = SessionView::initial(config, root_dir, windows);
            let taken = until_last(reads);
            let heard = commands(taken);
            &&& sent(config, root_dir, windows, reads) == protocol::GREETING@ + replies(
                s,
                heard,
            ).flatten()
            &&& conversed(s, reads).0 == session_after(s, heard, heard.len() as int)
            &&& taken.is_prefix_of(reads)
            &&& forall|i: int| 0 <= i < taken.len() - 1 ==> !(#[trigger] taken[i]).is_last()
            &&& taken.len() < reads.len() ==> taken.last().is_last()
        }),
{
    lemma_conversed(SessionView::initial(config, root_dir, windows), reads);
    lemma_until_last(reads);
}

/// Every command gets one reply, which has the form of a reply, if a virtual directory stands for
/// every directory that a client would enter; the one to a client that quits is the farewell.
pub proof fn law_every_command_is_answered(s: SessionView, heard: Seq<HeardView>)
    requires
        forall|i: int| 0 <= i < heard.len() ==> (#[trigger] heard[i]).answers.fit(s.root_dir),
    ensures
        replies(s, heard).len() == heard.len(),
        forall|i: int|
            0 <= i < heard.len() ==> answered(session_after(s, heard, i), heard[i]).1 == Some(
                #[trigger] replies(s, heard)[i],
            ),
        forall|i: int| 0 <= i < heard.len() ==> laws::is_reply(#[trigger] replies(s, heard)[i]),
        forall|i: int|
            0 <= i < heard.len() && heard[i].request.cmd == "QUIT"@ ==> #[trigger] replies(
                s,
                heard,
            )[i] == "221 Goodbye\r\n"@,
{
    assert forall|i: int| 0 <= i < heard.len() implies answered(
        session_after(s, heard, i),
        heard[i],
    ).1 == Some(#[trigger] replies(s, heard)[i]) && laws::is_reply(replies(s, heard)[i]) && (
    heard[i].request.cmd == "QUIT"@ ==> replies(s, heard)[i] == "221 Goodbye\r\n"@) by {
        assert(heard[i].answers.fit(s.root_dir));
        lemma_root_stays(s, heard, i);
        lemma_answer_is_reply(session_after(s, heard, i), heard[i]);
    }
}

proof fn lemma_root_stays(s: SessionView, heard: Seq<HeardView>, n: int)
    ensures
        session_after(s, heard, n).root_dir == s.root_dir,
    decreases n,
{
    if n > 0 {
        lemma_root_stays(s, heard, n - 1);
    }
}

proof fn lemma_answer_is_reply(s: SessionView, h: HeardView)
    requires
        h.answers.fit(s.root_dir),
    ensures
        answered(s, h).1 matches Some(reply) && laws::is_reply(reply),
        answered(s, h).0.root_dir == s.root_dir,
        h.request.cmd == "QUIT"@ ==> answered(s, h).1 == Some("221 Goodbye\r\n"@),
{
    let w = h.answers;
    let (s1, action) = command::obeyed(s, h.request.cmd, h.request.arg, w.up);
    laws::lemma_verb_names();
    laws::law_commands_are_answered_by_replies(s, h.request.cmd, h.request.arg, w.up);
    let purpose = match action {
        ActionView::Resolve { purpose, .. } => purpose,
        _ => command::PurposeView::List,
    };
    let (s2, next) = command::resolved(s1, purpose, w.found);
    let (name, dir) = match next {
        ActionView::CreateDir { name, .. } => (name, Seq::empty()),
        ActionView::CheckDir { path } => (Seq::empty(), path),
        _ => (Seq::empty(), Seq::empty()),
    };
    laws::law_outcomes_are_told_by_replies(
        s1,
        purpose,
        w.found,
        dir,
        w.is_dir,
        name,
        w.error,
        w.size,
        w.ip,
        w.port,
    );
    laws::law_outcomes_are_told_by_replies(
        s2,
        purpose,
        w.found,
        dir,
        w.is_dir,
        name,
        w.error,
        w.size,
        w.ip,
        w.port,
    );
}

/// A blank line is passed over: what the client is sent is the same without it.
pub proof fn law_blank_lines_are_passed_over(
    s: SessionView,
    before: Seq<ReadView>,
    blank: ReadView,
    after: Seq<ReadView>,
)
    requires
        blank.turn() is Blank,
    ensures
        conversed(s, before + seq![blank] + after) == conversed(s, before + after),
    decreases before.len(),
{
    let with = before + seq![blank] + after;
    let without = before + after;
    if before.len() == 0 {
        assert(with[0] == blank);
        assert(with.drop_first() =~= after);
        assert(without =~= after);
    } else {
        let rest = before.drop_first();
        assert(with[0] == before[0] && without[0] == before[0]);
        assert(with.drop_first() =~= rest + seq![blank] + after);
        assert(without.drop_first() =~= rest + after);
        match before[0].turn() {
            TurnView::Closed => {},
            TurnView::Blank => {
                law_blank_lines_are_passed_over(s, rest, blank, after);
            },
            TurnView::Command(request) => {
                let t = answered(s, HeardView { request, answers: before[0].answers }).0;
                law_blank_lines_are_passed_over(t, rest, blank, after);
            },
        }
    }
}

} // verus!
