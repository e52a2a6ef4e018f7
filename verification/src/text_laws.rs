//! What the texts of the server are made of: the lines that it reads, the lines of a listing and
//! those of the log.
use vstd::prelude::*;

use crate::command;
use crate::journal;
use crate::journal::{EventView, Work};
use crate::listing;
use crate::protocol;
use crate::protocol::{RequestView, TurnView};
use crate::session::SessionView;
use crate::text;

verus! {

/// Whether `s` is nothing but white space.
pub open spec fn is_blank(s: Seq<char>) -> bool {
    forall|i: int| 0 <= i < s.len() ==> text::is_white_space(#[trigger] s[i])
}

/// Whether `s` neither begins nor ends with white space.
pub open spec fn has_firm_ends(s: Seq<char>) -> bool {
    s.len() > 0 ==> !text::is_white_space(s[0]) && !text::is_white_space(s.last())
}

/// Trimming takes away the white space at both ends and nothing else.
pub proof fn law_trimming(front: Seq<char>, core: Seq<char>, back: Seq<char>)
    requires
        is_blank(front),
        has_firm_ends(core),
        is_blank(back),
    ensures
        text::trimmed(front + core + back) == core,
{
    let s = front + core + back;
    let i = front.len() as int;
    let j = i + core.len();
    assert forall|k: int| 0 <= k < i implies text::is_white_space(#[trigger] s[k]) by {
        assert(s[k] == front[k]);
    }
    assert forall|k: int| j <= k < s.len() implies text::is_white_space(#[trigger] s[k]) by {
        assert(s[k] == back[k - j]);
    }
    text::lemma_trimmed(s, i, j);
    assert(s.subrange(i, j) =~= core);
}

/// A line is cut at its first space and nowhere else.
pub proof fn law_splitting(word: Seq<char>, rest: Seq<char>)
    requires
        !word.contains(' '),
    ensures
        text::first_word(word) == word,
        text::after_first_word(word) is None,
        text::first_word(word + seq![' '] + rest) == word,
        text::after_first_word(word + seq![' '] + rest) == Some(rest),
{
    word.index_of_first_ensures(' ');
    let s = word + seq![' '] + rest;
    s.index_of_first_ensures(' ');
    let n = word.len() as int;
    assert(s[n] == ' ');
    assert(s.contains(' '));
    let i = s.index_of_first(' ')->0;
    if i < n {
        assert(s[i] == word[i]);
        assert(word.contains(' '));
    }
    assert(s.take(n) =~= word);
    assert(s.skip(n + 1) =~= rest);
}

/// A read that gave nothing means that the client is gone; white space is passed over.
pub proof fn law_silence(bytes_read: nat, line: Seq<char>)
    ensures
        protocol::turn(0, line) == TurnView::Closed,
        bytes_read > 0 && is_blank(line) ==> protocol::turn(bytes_read, line) == TurnView::Blank,
{
    if is_blank(line) {
        let nothing = Seq::<char>::empty();
        law_trimming(line, nothing, nothing);
        assert(line + nothing + nothing =~= line);
    }
}

/// A line of one word is a command without an argument, in upper case and without the white space
/// around it.
pub proof fn law_command_alone(
    bytes_read: nat,
    front: Seq<char>,
    word: Seq<char>,
    back: Seq<char>,
)
    requires
        bytes_read > 0,
        is_blank(front),
        word.len() > 0,
        has_firm_ends(word),
        !word.contains(' '),
        is_blank(back),
    ensures
        protocol::turn(bytes_read, front + word + back) == TurnView::Command(
            RequestView { cmd: text::uppercase(word), arg: None },
        ),
{
    law_trimming(front, word, back);
    law_splitting(word, Seq::empty());
}

/// A line of a word and more is a command, in upper case, and its argument: all that follows the
/// space after the word, as it was sent, but for the white space around it.
pub proof fn law_command_with_argument(
    bytes_read: nat,
    front: Seq<char>,
    word: Seq<char>,
    gap: Seq<char>,
    arg: Seq<char>,
    back: Seq<char>,
)
    requires
        bytes_read > 0,
        is_blank(front),
        word.len() > 0,
        !text::is_white_space(word[0]),
        !word.contains(' '),
        is_blank(gap),
        arg.len() > 0,
        has_firm_ends(arg),
        is_blank(back),
    ensures
        protocol::turn(bytes_read, front + (word + seq![' '] + (gap + arg)) + back)
            == TurnView::Command(RequestView { cmd: text::uppercase(word), arg: Some(arg) }),
{
    let core = word + seq![' '] + (gap + arg);
    assert(core[0] == word[0]);
    assert(core.last() == arg.last());
    law_trimming(front, core, back);
    law_splitting(word, gap + arg);
    law_trimming(gap, arg, Seq::empty());
    assert(gap + arg + Seq::<char>::empty() =~= gap + arg);
}

/// Numbers are written digit by digit, without zeros in front.
pub proof fn law_decimal_digits(n: nat)
    ensures
        n < 10 ==> text::decimal(n).len() == 1 && text::decimal(n)[0] as int == 48 + n,
        n >= 10 ==> {
            &&& text::decimal(n).len() == text::decimal(n / 10).len() + 1
            &&& text::decimal(n).drop_last() == text::decimal(n / 10)
            &&& text::decimal(n).last() as int == 48 + n % 10
        },
        n > 0 ==> text::decimal(n)[0] != '0',
    decreases n,
{
    if n >= 10 {
        law_decimal_digits(n / 10);
        assert(text::decimal(n).drop_last() =~= text::decimal(n / 10));
        assert(text::decimal(n)[0] == text::decimal(n / 10)[0]);
    }
}

/// What is aligned keeps its text and has nothing but spaces in front, as many as bring it to the
/// width.
pub proof fn law_alignment(s: Seq<char>, width: nat)
    ensures
        text::right_aligned(s, width).len() == (if s.len() < width {
            width
        } else {
            s.len()
        }),
        text::right_aligned(s, width).skip(text::right_aligned(s, width).len() - s.len()) == s,
        forall|i: int|
            0 <= i < text::right_aligned(s, width).len() - s.len() ==> #[trigger]
                text::right_aligned(s, width)[i] == ' ',
{
    let r = text::right_aligned(s, width);
    assert(r.skip(r.len() - s.len()) =~= s);
}

/// The line of a listing: what kind the entry is, its size in at least ten places, its time and its
/// name as they are.
pub proof fn law_listing_line(
    is_dir: bool,
    size: u64,
    time: Seq<char>,
    name: Seq<char>,
    spaces: Seq<char>,
)
    requires
        forall|i: int| 0 <= i < spaces.len() ==> #[trigger] spaces[i] == ' ',
        text::decimal(size as nat).len() <= 10 ==> spaces.len() + text::decimal(size as nat).len()
            == 10,
        text::decimal(size as nat).len() > 10 ==> spaces.len() == 0,
    ensures
        listing::line(is_dir, size, time, name) == (if is_dir {
            "d"@
        } else {
            "-"@
        }) + "rwxr-xr-x 1 owner group "@ + (spaces + text::decimal(size as nat)) + " "@ + time
            + " "@ + name + "\r\n"@,
        listing::UNKNOWN_TIME@ == "Jan 01 00:00"@,
        listing::TIME_FORMAT@ == "%b %d %H:%M"@,
{
    assert(text::right_aligned(text::decimal(size as nat), 10) =~= spaces + text::decimal(
        size as nat,
    ));
}

/// The lines of the log about a client begin with its address and tell what has happened, with the
/// names and reasons as they are.
pub proof fn law_log_lines_of_clients(
    peer: Seq<char>,
    x: Seq<char>,
    error: Seq<char>,
)
    ensures
        ({
            let said = |event: EventView, what: Seq<char>|
                journal::log_line(event, peer) == "["@ + peer + "] "@ + what;
            &&& said(EventView::Connected, "新しい接続"@)
            &&& said(EventView::Closed, "接続が閉じられました"@)
            &&& said(EventView::Received(x), "コマンド: "@ + x)
            &&& said(EventView::Ended, "セッション終了"@)
            &&& said(EventView::LoggedIn(x), "認証成功: "@ + x)
            &&& said(EventView::LoginFailed(x), "認証失敗: "@ + x)
            &&& said(
                EventView::Done { work: Work::MakeDir, name: x },
                "ディレクトリ作成"@ + ": "@ + x,
            )
            &&& said(
                EventView::Done { work: Work::RemoveDir, name: x },
                "ディレクトリ削除"@ + ": "@ + x,
            )
            &&& said(
                EventView::Done { work: Work::DeleteFile, name: x },
                "ファイル削除"@ + ": "@ + x,
            )
            &&& said(
                EventView::Failed { work: Work::MakeDir, name: x, error },
                "ディレクトリ作成"@ + "失敗: "@ + x + " - "@ + error,
            )
            &&& said(
                EventView::Failed { work: Work::RemoveDir, name: x, error },
                "ディレクトリ削除"@ + "失敗: "@ + x + " - "@ + error,
            )
            &&& said(
                EventView::Failed { work: Work::DeleteFile, name: x, error },
                "ファイル削除"@ + "失敗: "@ + x + " - "@ + error,
            )
        }),
{
}

/// The other lines of the log say nothing of a client.
pub proof fn law_log_lines_of_the_server(peer: Seq<char>, x: Seq<char>)
    ensures
        journal::log_line(EventView::ListingSent, peer) == "LIST コマンド完了"@,
        journal::log_line(EventView::FileSent(x), peer) == "ダウンロード完了: "@ + x,
        journal::log_line(EventView::FileStored(x), peer) == "アップロード完了: "@ + x,
        journal::log_line(EventView::RootCreated(x), peer)
            == "ルートディレクトリを作成しました: "@ + x,
        journal::log_line(EventView::RootFound(x), peer)
            == "正規化されたルートディレクトリ: "@ + x,
        journal::log_line(EventView::Listening(x), peer) == "FTPサーバを起動しました: "@ + x,
        journal::log_line(EventView::ClientError(x), peer) == "クライアント処理エラー: "@ + x,
        journal::log_line(EventView::AcceptError(x), peer) == "接続受け入れエラー: "@ + x,
{
}

/// A password is logged just when a user name was given before, under that name, as a success just
/// when the client is logged in by it; no other command is logged so.
pub proof fn law_logged_passwords(
    s: SessionView,
    cmd: Seq<char>,
    arg: Option<Seq<char>>,
)
    ensures
        ({
            let password = match arg {
                Some(password) => password,
                None => Seq::empty(),
            };
            journal::login_told(s, cmd, arg) == match s.username {
                None => None,
                Some(name) => if cmd != "PASS"@ {
                    None
                } else if name == s.config.username && password == s.config.password {
                    Some(EventView::LoggedIn(name))
                } else {
                    Some(EventView::LoginFailed(name))
                },
            }
        }),
{
    crate::laws::lemma_verb_names();
    assert(command::verb(cmd) == command::Verb::Pass ==> cmd == "PASS"@);
}

/// The first line that a client is sent, and the address of a data port.
pub proof fn law_first_words()
    ensures
        protocol::GREETING@ == "220 Local FTP Server Ready\r\n"@,
        protocol::PASSIVE_ADDRESS@ == "0.0.0.0:0"@,
{
}

} // verus!
