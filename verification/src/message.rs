//! The chat line grammar. A line is classified by its first character:
//! `+` starts a private message (leading `+`-words name the recipients,
//! the rest of the line from the first other word on is the body),
//! `!` starts a command (`!!` an action), and anything else is a public
//! message whose body is the whole line.
use vstd::prelude::*;
use vstd::string::StrSliceExecFns;

use crate::text::{is_ws, is_ws_char, strs_view};

verus! {

/// The mathematical shape of a classified line.
#[verifier::ext_equal]
pub enum MessageView {
    Public(Seq<char>),
    Private(Seq<char>, Seq<Seq<char>>),
    Command(Seq<char>),
    Action(Seq<char>),
}

/// A classified chat line. A private message carries its body and the
/// recipient logins in the order they were written.
pub enum Message {
    Public(String),
    Private(String, Vec<String>),
    Command(String),
    Action(String),
}

impl View for Message {
    type V = MessageView;

    open spec fn view(&self) -> MessageView {
        match self {
            Message::Public(s) => MessageView::Public(s@),
            Message::Private(body, recips) => MessageView::Private(body@, strs_view(recips@)),
            Message::Command(s) => MessageView::Command(s@),
            Message::Action(s) => MessageView::Action(s@),
        }
    }
}

/// Index of the first non-whitespace character at or after `i`.
pub open spec fn spec_skip_ws(s: Seq<char>, i: int) -> int
    recommends
        0 <= i <= s.len(),
    decreases s.len() - i,
    when 0 <= i <= s.len()
{
    if i < s.len() && is_ws_char(s[i]) {
        spec_skip_ws(s, i + 1)
    } else {
        i
    }
}

/// Index just past the word that starts at `i`: the first whitespace
/// character at or after `i`.
pub open spec fn spec_word_end(s: Seq<char>, i: int) -> int
    recommends
        0 <= i <= s.len(),
    decreases s.len() - i,
    when 0 <= i <= s.len()
{
    if i < s.len() && !is_ws_char(s[i]) {
        spec_word_end(s, i + 1)
    } else {
        i
    }
}

pub proof fn lemma_skip_ws_bounds(s: Seq<char>, i: int)
    requires
        0 <= i <= s.len(),
    ensures
        i <= spec_skip_ws(s, i) <= s.len(),
        spec_skip_ws(s, i) < s.len() ==> !is_ws_char(s[spec_skip_ws(s, i)]),
        forall|k: int| i <= k < spec_skip_ws(s, i) ==> is_ws_char(s[k]),
    decreases s.len() - i,
{
    if i < s.len() && is_ws_char(s[i]) {
        lemma_skip_ws_bounds(s, i + 1);
    }
}

pub proof fn lemma_word_end_bounds(s: Seq<char>, i: int)
    requires
        0 <= i <= s.len(),
    ensures
        i <= spec_word_end(s, i) <= s.len(),
        spec_word_end(s, i) < s.len() ==> is_ws_char(s[spec_word_end(s, i)]),
        forall|k: int| i <= k < spec_word_end(s, i) ==> !is_ws_char(s[k]),
        i < s.len() && !is_ws_char(s[i]) ==> spec_word_end(s, i) > i,
    decreases s.len() - i,
{
    if i < s.len() && !is_ws_char(s[i]) {
        lemma_word_end_bounds(s, i + 1);
    }
}

/// The recipient logins named by the `+`-words that begin at or after
/// scan position `i`: each leading `+`-word contributes the word with
/// its `+` removed, and the first other word ends the list.
pub open spec fn spec_recipients(s: Seq<char>, i: int) -> Seq<Seq<char>>
    recommends
        0 <= i <= s.len(),
    decreases s.len() - i,
    when 0 <= i <= s.len()
    via spec_recipients_dec
{
    let j = spec_skip_ws(s, i);
    if j >= s.len() {
        Seq::empty()
    } else if s[j] == '+' {
        let k = spec_word_end(s, j);
        seq![s.subrange(j + 1, k)] + spec_recipients(s, k)
    } else {
        Seq::empty()
    }
}

#[via_fn]
proof fn spec_recipients_dec(s: Seq<char>, i: int) {
    lemma_skip_ws_bounds(s, i);
    let j = spec_skip_ws(s, i);
    if j < s.len() && s[j] == '+' {
        lemma_word_end_bounds(s, j);
    }
}

/// Start of the body of a private message scanned from position `i`:
/// the offset of the first word that does not begin with `+`, or the
/// end of the line if every word does.
pub open spec fn spec_body_start(s: Seq<char>, i: int) -> int
    recommends
        0 <= i <= s.len(),
    decreases s.len() - i,
    when 0 <= i <= s.len()
    via spec_body_start_dec
{
    let j = spec_skip_ws(s, i);
    if j >= s.len() {
        s.len() as int
    } else if s[j] == '+' {
        spec_body_start(s, spec_word_end(s, j))
    } else {
        j
    }
}

#[via_fn]
proof fn spec_body_start_dec(s: Seq<char>, i: int) {
    lemma_skip_ws_bounds(s, i);
    let j = spec_skip_ws(s, i);
    if j < s.len() && s[j] == '+' {
        lemma_word_end_bounds(s, j);
    }
}

/// A private line parsed: its body slice and its recipients.
pub open spec fn spec_parse_private(line: Seq<char>) -> MessageView {
    MessageView::Private(
        line.subrange(spec_body_start(line, 0), line.len() as int),
        spec_recipients(line, 0),
    )
}

/// A `!` line parsed: `!!` introduces an action, anything else a command.
pub open spec fn spec_parse_command(line: Seq<char>) -> MessageView
    recommends
        line.len() >= 1,
{
    if line.len() >= 2 && line[1] == '!' {
        MessageView::Action(line.subrange(2, line.len() as int))
    } else {
        MessageView::Command(line.subrange(1, line.len() as int))
    }
}

/// A chat line classified by its first character.
pub open spec fn spec_parse(line: Seq<char>) -> MessageView {
    if line.len() == 0 {
        MessageView::Public(line)
    } else if line[0] == '+' {
        spec_parse_private(line)
    } else if line[0] == '!' {
        spec_parse_command(line)
    } else {
        MessageView::Public(line)
    }
}

impl Message {
    /// Classify one chat line.
    pub fn parse(line: &str) -> (m: Message)
        ensures
            m@ == spec_parse(line@),
    {
        let n = line.unicode_len();
        if n == 0 {
            return Message::Public(line.to_owned());
        }
        let first = line.get_char(0);
        if first == '+' {
            Message::parse_private(line)
        } else if first == '!' {
            Message::parse_command(line)
        } else {
            Message::Public(line.to_owned())
        }
    }

    fn parse_command(line: &str) -> (m: Message)
        requires
            line@.len() >= 1,
            line@[0] == '!',
        ensures
            m@ == spec_parse_command(line@),
    {
        let n = line.unicode_len();
        if n >= 2 && line.get_char(1) == '!' {
            Message::Action(line.substring_char(2, n).to_owned())
        } else {
            Message::Command(line.substring_char(1, n).to_owned())
        }
    }

    fn parse_private(line: &str) -> (m: Message)
        requires
            line@.len() >= 1,
            line@[0] == '+',
        ensures
            m@ == spec_parse_private(line@),
    {
        let ghost s = line@;
        let n = line.unicode_len();
        let mut recips: Vec<String> = Vec::new();
        let mut i: usize = 0;
        loop
            invariant
                n == s.len(),
                s == line@,
                0 <= i <= n,
                spec_recipients(s, 0) == strs_view(recips@) + spec_recipients(s, i as int),
                spec_body_start(s, 0) == spec_body_start(s, i as int),
            decreases n - i,
        {
            let ghost i0 = i;
            // skip whitespace
            while i < n && is_ws(line.get_char(i))
                invariant
                    n == s.len(),
                    s == line@,
                    i0 <= i <= n,
                    spec_recipients(s, 0) == strs_view(recips@) + spec_recipients(s, i as int),
                    spec_body_start(s, 0) == spec_body_start(s, i as int),
                decreases n - i,
            {
                proof {
                    assert(spec_skip_ws(s, i as int) == spec_skip_ws(s, i + 1));
                    assert(spec_recipients(s, i as int) == spec_recipients(s, i + 1));
                    assert(spec_body_start(s, i as int) == spec_body_start(s, i + 1));
                }
                i = i + 1;
            }
            proof {
                assert(spec_skip_ws(s, i as int) == i as int);
            }
            if i >= n {
                proof {
                    reveal_strlit("");
                    assert(spec_recipients(s, i as int) =~= Seq::<Seq<char>>::empty());
                    assert(strs_view(recips@) + spec_recipients(s, i as int) =~= strs_view(
                        recips@,
                    ));
                    assert(spec_body_start(s, i as int) == s.len());
                    assert(s.subrange(s.len() as int, s.len() as int) =~= ""@);
                }
                return Message::Private("".to_owned(), recips);
            }
            if line.get_char(i) == '+' {
                // a recipient word
                let mut k: usize = i + 1;
                while k < n && !is_ws(line.get_char(k))
                    invariant
                        n == s.len(),
                        s == line@,
                        i0 <= i,
                        i < k <= n,
                        spec_word_end(s, i as int) == spec_word_end(s, k as int),
                        forall|t: int| i <= t < k ==> !is_ws_char(s[t]),
                    decreases n - k,
                {
                    proof {
                        assert(spec_word_end(s, k as int) == spec_word_end(s, k + 1));
                    }
                    k = k + 1;
                }
                proof {
                    assert(spec_word_end(s, k as int) == k as int);
                    assert(spec_word_end(s, i as int) == k as int);
                }
                let word = line.substring_char(i + 1, k);
                recips.push(word.to_owned());
                proof {
                    assert(spec_recipients(s, i as int) =~= seq![s.subrange(i + 1, k as int)]
                        + spec_recipients(s, k as int));
                    assert(strs_view(recips@) =~= strs_view(recips@.drop_last()).push(word@));
                    assert(strs_view(recips@) + spec_recipients(s, k as int) =~= strs_view(
                        recips@.drop_last(),
                    ) + spec_recipients(s, i as int));
                    assert(spec_body_start(s, i as int) == spec_body_start(s, k as int));
                }
                i = k;
            } else {
                // the body begins here
                proof {
                    assert(spec_body_start(s, i as int) == i as int);
                    assert(spec_recipients(s, i as int) =~= Seq::<Seq<char>>::empty());
                    assert(strs_view(recips@) + spec_recipients(s, i as int) =~= strs_view(
                        recips@,
                    ));
                }
                let body = line.substring_char(i, n);
                return Message::Private(body.to_owned(), recips);
            }
        }
    }
}

/// What a participant may emit. The deny variants carry the line sent
/// back to a muted sender.
pub enum MuteLevel {
    AllowAll,
    DenyPublic(String),
    DenyAll(String),
}

#[verifier::ext_equal]
pub enum MuteLevelView {
    AllowAll,
    DenyPublic(Seq<char>),
    DenyAll(Seq<char>),
}

impl View for MuteLevel {
    type V = MuteLevelView;

    open spec fn view(&self) -> MuteLevelView {
        match self {
            MuteLevel::AllowAll => MuteLevelView::AllowAll,
            MuteLevel::DenyPublic(reason) => MuteLevelView::DenyPublic(reason@),
            MuteLevel::DenyAll(reason) => MuteLevelView::DenyAll(reason@),
        }
    }
}

/// Whether a public message may be sent under this level.
pub open spec fn mute_public_allowed(m: MuteLevelView) -> bool {
    m is AllowAll
}

/// Whether a private message may be sent under this level.
pub open spec fn mute_private_allowed(m: MuteLevelView) -> bool {
    !(m is DenyAll)
}

/// The line sent back to a muted sender; empty when nothing is denied.
pub open spec fn mute_reason(m: MuteLevelView) -> Seq<char> {
    match m {
        MuteLevelView::AllowAll => ""@,
        MuteLevelView::DenyPublic(reason) => reason,
        MuteLevelView::DenyAll(reason) => reason,
    }
}

impl MuteLevel {
    pub fn public_allowed(&self) -> (r: bool)
        ensures
            r == mute_public_allowed(self@),
    {
        match self {
            MuteLevel::AllowAll => true,
            _ => false,
        }
    }

    pub fn private_allowed(&self) -> (r: bool)
        ensures
            r == mute_private_allowed(self@),
    {
        match self {
            MuteLevel::DenyAll(_) => false,
            _ => true,
        }
    }

    pub fn get_reason(&self) -> (r: &str)
        ensures
            r@ == mute_reason(self@),
    {
        match self {
            MuteLevel::AllowAll => "",
            MuteLevel::DenyPublic(reason) => reason.as_str(),
            MuteLevel::DenyAll(reason) => reason.as_str(),
        }
    }
}

} // verus!
