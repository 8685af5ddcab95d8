//! The chat service: the participants of the shared room, each with a mute
//! level, the classification of their lines, and the command surface that
//! re-emits events to the game. Every handler is a pure step from state
//! and input to actions: requests down to the socket service and game
//! events up.
use vstd::prelude::*;
use vstd::string::StrSliceExecFns;
use vstd::string::StringExecFns;

use crate::clock::{format_hh_mm, spec_hh_mm, ClockTime};
use crate::login::{User, UserEvent, UserEventView, UserId, UserView};
use crate::message::{
    mute_private_allowed, mute_public_allowed, mute_reason, spec_parse, Message, MessageView,
    MuteLevel, MuteLevelView,
};
use crate::order::{
    dedup_adjacent, lemma_dedup_contains, lemma_sort_contains, sort_strs, spec_dedup, spec_sort,
    str_eq,
};
use crate::socket::{SocketMessage, SocketRequest, SocketRequestView};
use crate::table::Table;
use crate::text::{join, join_spec, strs_view};

verus! {

pub type PlayerId = UserId;

/// A participant as the game sees it: the user handle, with which the
/// game may address, mute or disconnect the player.
pub struct Player {
    pub user: User,
}

impl View for Player {
    type V = UserView;

    open spec fn view(&self) -> UserView {
        self.user@
    }
}

/// The game's side channel back into the chat service.
pub enum ChatRequest {
    MutePlayer(PlayerId, MuteLevel),
}

#[verifier::ext_equal]
pub enum ChatRequestView {
    MutePlayer(PlayerId, MuteLevelView),
}

impl View for ChatRequest {
    type V = ChatRequestView;

    open spec fn view(&self) -> ChatRequestView {
        match self {
            ChatRequest::MutePlayer(id, level) => ChatRequestView::MutePlayer(*id, level@),
        }
    }
}

impl Player {
    pub fn get_id(&self) -> (r: PlayerId)
        ensures
            r == self@.id,
    {
        self.user.get_id()
    }

    pub fn get_login(&self) -> (r: &str)
        ensures
            r@ == self@.login,
    {
        self.user.get_login()
    }

    /// A send request for this player's connection, owned carrier.
    pub fn send(&self, message: String) -> (q: SocketRequest)
        ensures
            q@ == SocketRequestView::SendMessage(self@.id, message@),
    {
        self.user.send(message)
    }

    /// A send request for this player's connection, boxed carrier.
    pub fn send_boxed(&self, message: String) -> (q: SocketRequest)
        ensures
            q@ == SocketRequestView::SendMessage(self@.id, message@),
    {
        self.user.send_boxed(message)
    }

    /// A send request for this player's connection, shared carrier.
    pub fn send_arc(&self, message: String) -> (q: SocketRequest)
        ensures
            q@ == SocketRequestView::SendMessage(self@.id, message@),
    {
        self.user.send_arc(message)
    }

    /// A send request for this player's connection, static carrier.
    pub fn send_static(&self, message: &str) -> (q: SocketRequest)
        ensures
            q@ == SocketRequestView::SendMessage(self@.id, message@),
    {
        self.user.send_static(message)
    }

    /// A request to close this player's connection.
    pub fn disconnect(&self) -> (q: SocketRequest)
        ensures
            q@ == SocketRequestView::CloseSocket(self@.id),
    {
        self.user.drop()
    }

    /// A request to replace this player's mute level.
    pub fn mute(&self, level: MuteLevel) -> (q: ChatRequest)
        ensures
            q@ == ChatRequestView::MutePlayer(self@.id, level@),
    {
        ChatRequest::MutePlayer(self.user.get_id(), level)
    }
}

/// What the chat service reports to the game.
pub enum GameEvent {
    Connected(Player),
    Disconnected(PlayerId),
    Action(PlayerId, String),
    CommandList(PlayerId),
    CommandObserve(PlayerId),
    CommandPlay(PlayerId),
    CommandPause(PlayerId),
    CommandStart(PlayerId),
}

#[verifier::ext_equal]
pub enum GameEventView {
    Connected(UserView),
    Disconnected(PlayerId),
    Action(PlayerId, Seq<char>),
    CommandList(PlayerId),
    CommandObserve(PlayerId),
    CommandPlay(PlayerId),
    CommandPause(PlayerId),
    CommandStart(PlayerId),
}

impl View for GameEvent {
    type V = GameEventView;

    open spec fn view(&self) -> GameEventView {
        match self {
            GameEvent::Connected(p) => GameEventView::Connected(p@),
            GameEvent::Disconnected(id) => GameEventView::Disconnected(*id),
            GameEvent::Action(id, s) => GameEventView::Action(*id, s@),
            GameEvent::CommandList(id) => GameEventView::CommandList(*id),
            GameEvent::CommandObserve(id) => GameEventView::CommandObserve(*id),
            GameEvent::CommandPlay(id) => GameEventView::CommandPlay(*id),
            GameEvent::CommandPause(id) => GameEventView::CommandPause(*id),
            GameEvent::CommandStart(id) => GameEventView::CommandStart(*id),
        }
    }
}

/// What the chat service does in response to an input: a request down
/// to the socket service, or a game event.
pub enum ChatAction {
    ToSocket(SocketRequest),
    Game(GameEvent),
}

#[verifier::ext_equal]
pub enum ChatActionView {
    ToSocket(SocketRequestView),
    Game(GameEventView),
}

impl View for ChatAction {
    type V = ChatActionView;

    open spec fn view(&self) -> ChatActionView {
        match self {
            ChatAction::ToSocket(q) => ChatActionView::ToSocket(q@),
            ChatAction::Game(e) => ChatActionView::Game(e@),
        }
    }
}

/// The views of a vector of chat actions.
pub open spec fn chat_acts_view(v: Seq<ChatAction>) -> Seq<ChatActionView> {
    v.map_values(|a: ChatAction| a@)
}

/// A send of the given line to the given connection.
pub open spec fn chat_send(id: UserId, line: Seq<char>) -> ChatActionView {
    ChatActionView::ToSocket(SocketRequestView::SendMessage(id, line))
}

/// A participant: the user handle and its current mute level.
pub struct UserInfo {
    pub user: User,
    pub mute: MuteLevel,
}

#[verifier::ext_equal]
pub struct ParticipantView {
    pub user: UserView,
    pub mute: MuteLevelView,
}

impl View for UserInfo {
    type V = ParticipantView;

    open spec fn view(&self) -> ParticipantView {
        ParticipantView { user: self.user@, mute: self.mute@ }
    }
}

// The exact chat lines.
pub open spec fn spec_observer_reason() -> Seq<char> {
    "You are observer, you can not use chat.\n"@
}

pub open spec fn spec_connected_line(t: ClockTime, login: Seq<char>) -> Seq<char> {
    spec_hh_mm(t) + " Connected: "@ + login + "\n"@
}

pub open spec fn spec_disconnected_line(t: ClockTime, login: Seq<char>) -> Seq<char> {
    spec_hh_mm(t) + " Disconnected: "@ + login + "\n"@
}

pub open spec fn spec_public_line(t: ClockTime, login: Seq<char>, body: Seq<char>) -> Seq<char> {
    spec_hh_mm(t) + " ["@ + login + "] "@ + body + "\n"@
}

pub open spec fn spec_private_line(
    t: ClockTime,
    sender: Seq<char>,
    recips: Seq<Seq<char>>,
    body: Seq<char>,
) -> Seq<char> {
    spec_hh_mm(t) + " ["@ + sender + "]->["@ + join_spec(recips, "]+["@) + "] "@ + body + "\n"@
}

pub open spec fn spec_unknown_line(unknown: Seq<Seq<char>>) -> Seq<char> {
    "Unknown user(s): "@ + join_spec(unknown, ", "@) + "\n"@
}

pub open spec fn spec_empty_private() -> Seq<char> {
    "Can't send an empty private message.\n"@
}

pub open spec fn spec_no_recipients() -> Seq<char> {
    "No recipients in your private message.\n"@
}

pub open spec fn spec_unknown_command() -> Seq<char> {
    "Unknown command.\n"@
}

pub fn observer_reason() -> (r: String)
    ensures
        r@ == spec_observer_reason(),
{
    "You are observer, you can not use chat.\n".to_owned()
}

pub fn connected_line(t: ClockTime, login: &str) -> (r: String)
    requires
        t.wf(),
    ensures
        r@ == spec_connected_line(t, login@),
{
    let mut s = format_hh_mm(t);
    s.append(" Connected: ");
    s.append(login);
    s.append("\n");
    s
}

pub fn disconnected_line(t: ClockTime, login: &str) -> (r: String)
    requires
        t.wf(),
    ensures
        r@ == spec_disconnected_line(t, login@),
{
    let mut s = format_hh_mm(t);
    s.append(" Disconnected: ");
    s.append(login);
    s.append("\n");
    s
}

pub fn public_line(t: ClockTime, login: &str, body: &str) -> (r: String)
    requires
        t.wf(),
    ensures
        r@ == spec_public_line(t, login@, body@),
{
    let mut s = format_hh_mm(t);
    s.append(" [");
    s.append(login);
    s.append("] ");
    s.append(body);
    s.append("\n");
    s
}

pub fn private_line(t: ClockTime, sender: &str, recips: &Vec<String>, body: &str) -> (r: String)
    requires
        t.wf(),
    ensures
        r@ == spec_private_line(t, sender@, strs_view(recips@), body@),
{
    let mut s = format_hh_mm(t);
    s.append(" [");
    s.append(sender);
    s.append("]->[");
    let joined = join(recips, "]+[");
    s.append(joined.as_str());
    s.append("] ");
    s.append(body);
    s.append("\n");
    s
}

pub fn unknown_line(unknown: &Vec<String>) -> (r: String)
    ensures
        r@ == spec_unknown_line(strs_view(unknown@)),
{
    let mut s = "Unknown user(s): ".to_owned();
    let joined = join(unknown, ", ");
    s.append(joined.as_str());
    s.append("\n");
    s
}

/// The mathematical state of the chat service: the participants, the
/// order they joined in (which fixes broadcast order), the login→id
/// map, and the help text.
#[verifier::ext_equal]
pub struct ChatView {
    pub users: Map<UserId, ParticipantView>,
    pub order: Seq<UserId>,
    pub login_id: Map<Seq<char>, UserId>,
    pub help: Seq<char>,
}

/// The chat invariant: participants are keyed by their own connection,
/// and login→id is a bijection over the participants.
pub open spec fn chat_view_wf(s: ChatView) -> bool {
    &&& forall|id: UserId|
        s.users.contains_key(id) ==> {
            &&& (#[trigger] s.users[id]).user.id == id
            &&& s.login_id.contains_key(s.users[id].user.login)
            &&& s.login_id[s.users[id].user.login] == id
        }
    &&& forall|l: Seq<char>|
        s.login_id.contains_key(l) ==> {
            &&& s.users.contains_key(#[trigger] s.login_id[l])
            &&& s.users[s.login_id[l]].user.login == l
        }
}

/// One send of the line to every participant, in joining order.
pub open spec fn spec_broadcast(order: Seq<UserId>, line: Seq<char>) -> Seq<ChatActionView> {
    order.map_values(|pid: UserId| chat_send(pid, line))
}

/// A new participant: record it (muted as an observer), tell the room,
/// and hand its player to the game.
pub open spec fn spec_chat_new_user(s: ChatView, u: UserView, t: ClockTime) -> (ChatView, Seq<
    ChatActionView,
>) {
    let users = s.users.insert(
        u.id,
        ParticipantView { user: u, mute: MuteLevelView::DenyAll(spec_observer_reason()) },
    );
    let order = if s.users.contains_key(u.id) {
        s.order
    } else {
        s.order.push(u.id)
    };
    let s2 = ChatView { users, order, login_id: s.login_id.insert(u.login, u.id), help: s.help };
    (
        s2,
        spec_broadcast(order, spec_connected_line(t, u.login)).push(
            ChatActionView::Game(GameEventView::Connected(u)),
        ),
    )
}

/// The joining order with one id taken out.
pub open spec fn remove_id(order: Seq<UserId>, id: UserId) -> Seq<UserId>
    decreases order.len(),
{
    if order.len() == 0 {
        order
    } else if order[0] == id {
        order.drop_first()
    } else {
        seq![order[0]] + remove_id(order.drop_first(), id)
    }
}

/// A departing participant: drop it and its login, tell the remaining
/// room, and tell the game.
pub open spec fn spec_chat_drop(s: ChatView, id: UserId, t: ClockTime) -> (ChatView, Seq<
    ChatActionView,
>) {
    if !s.users.contains_key(id) {
        (s, Seq::empty())
    } else {
        let login = s.users[id].user.login;
        let s2 = ChatView {
            users: s.users.remove(id),
            order: remove_id(s.order, id),
            login_id: s.login_id.remove(login),
            help: s.help,
        };
        (
            s2,
            spec_broadcast(s2.order, spec_disconnected_line(t, login)).push(
                ChatActionView::Game(GameEventView::Disconnected(id)),
            ),
        )
    }
}

/// A mute request from the game: replace the participant's level;
/// unknown ids are ignored.
pub open spec fn spec_chat_mute(s: ChatView, id: UserId, level: MuteLevelView) -> ChatView {
    if s.users.contains_key(id) {
        ChatView {
            users: s.users.insert(
                id,
                ParticipantView { user: s.users[id].user, mute: level },
            ),
            order: s.order,
            login_id: s.login_id,
            help: s.help,
        }
    } else {
        s
    }
}

/// The recipients that name no known login, in the order given.
pub open spec fn spec_unknown_of(login_id: Map<Seq<char>, UserId>, recips: Seq<Seq<char>>) -> Seq<
    Seq<char>,
>
    decreases recips.len(),
{
    if recips.len() == 0 {
        Seq::empty()
    } else if !login_id.contains_key(recips.last()) {
        spec_unknown_of(login_id, recips.drop_last()).push(recips.last())
    } else {
        spec_unknown_of(login_id, recips.drop_last())
    }
}

/// One send of the line to each listed recipient other than the sender.
pub open spec fn spec_target_sends(
    login_id: Map<Seq<char>, UserId>,
    sender: Seq<char>,
    targets: Seq<Seq<char>>,
    line: Seq<char>,
) -> Seq<ChatActionView>
    decreases targets.len(),
{
    if targets.len() == 0 {
        Seq::empty()
    } else if targets.last() != sender {
        spec_target_sends(login_id, sender, targets.drop_last(), line).push(
            chat_send(login_id[targets.last()], line),
        )
    } else {
        spec_target_sends(login_id, sender, targets.drop_last(), line)
    }
}

/// A private line: validate mute, body, recipient list and recipients
/// in that order, answering the sender alone on the first failure; on
/// success send the formatted line once to each distinct recipient
/// other than the sender, in sorted order, and once to the sender.
pub open spec fn spec_private_msg(
    s: ChatView,
    p: ParticipantView,
    body: Seq<char>,
    recips: Seq<Seq<char>>,
    t: ClockTime,
) -> Seq<ChatActionView> {
    if !mute_private_allowed(p.mute) {
        seq![chat_send(p.user.id, mute_reason(p.mute))]
    } else if body.len() == 0 {
        seq![chat_send(p.user.id, spec_empty_private())]
    } else if recips.len() == 0 {
        seq![chat_send(p.user.id, spec_no_recipients())]
    } else {
        let unknown = spec_unknown_of(s.login_id, recips);
        if unknown.len() > 0 {
            seq![chat_send(p.user.id, spec_unknown_line(unknown))]
        } else {
            let line = spec_private_line(t, p.user.login, recips, body);
            let targets = spec_dedup(spec_sort(recips));
            spec_target_sends(s.login_id, p.user.login, targets, line).push(
                chat_send(p.user.id, line),
            )
        }
    }
}

/// A command line: `help` and unknown commands answer the sender, `quit`
/// closes its connection, and the rest go to the game.
pub open spec fn spec_command(s: ChatView, id: UserId, cmd: Seq<char>) -> Seq<ChatActionView> {
    if cmd == "help"@ {
        seq![chat_send(id, s.help)]
    } else if cmd == "quit"@ {
        seq![ChatActionView::ToSocket(SocketRequestView::CloseSocket(id))]
    } else if cmd == "list"@ {
        seq![ChatActionView::Game(GameEventView::CommandList(id))]
    } else if cmd == "observe"@ {
        seq![ChatActionView::Game(GameEventView::CommandObserve(id))]
    } else if cmd == "play"@ {
        seq![ChatActionView::Game(GameEventView::CommandPlay(id))]
    } else if cmd == "pause"@ {
        seq![ChatActionView::Game(GameEventView::CommandPause(id))]
    } else if cmd == "start"@ {
        seq![ChatActionView::Game(GameEventView::CommandStart(id))]
    } else {
        seq![chat_send(id, spec_unknown_command())]
    }
}

/// A line from a participant, classified and handled; lines from ids
/// that are not participants are dropped.
pub open spec fn spec_chat_msg(s: ChatView, id: UserId, line: Seq<char>, t: ClockTime) -> Seq<
    ChatActionView,
> {
    if !s.users.contains_key(id) {
        Seq::empty()
    } else {
        let p = s.users[id];
        match spec_parse(line) {
            MessageView::Public(body) => {
                if !mute_public_allowed(p.mute) {
                    seq![chat_send(p.user.id, mute_reason(p.mute))]
                } else if body.len() == 0 {
                    Seq::empty()
                } else {
                    spec_broadcast(s.order, spec_public_line(t, p.user.login, body))
                }
            },
            MessageView::Private(body, recips) => spec_private_msg(s, p, body, recips, t),
            MessageView::Command(cmd) => spec_command(s, id, cmd),
            MessageView::Action(arg) => seq![
                ChatActionView::Game(GameEventView::Action(p.user.id, arg)),
            ],
        }
    }
}

/// One step of the chat service on one user event.
pub open spec fn spec_chat_user_step(s: ChatView, e: UserEventView, t: ClockTime) -> (ChatView, Seq<
    ChatActionView,
>) {
    match e {
        UserEventView::NewUser(u) => spec_chat_new_user(s, u, t),
        UserEventView::NewMessage(id, line) => (s, spec_chat_msg(s, id, line, t)),
        UserEventView::DropUser(id) => spec_chat_drop(s, id, t),
    }
}

/// The chat service's state: the participant table, the login→id map,
/// and the help text sent for `!help`.
pub struct ChatService {
    users: Table<u64, UserInfo>,
    login_id: Table<String, u64>,
    help: String,
}

impl ChatService {
    pub closed spec fn cv(&self) -> ChatView {
        ChatView {
            users: self.users.map(),
            order: self.users.keys(),
            login_id: self.login_id.map(),
            help: self.help@,
        }
    }

    pub closed spec fn wf(&self) -> bool {
        &&& self.users.wf()
        &&& self.login_id.wf()
        &&& chat_view_wf(self.cv())
    }

    pub fn new(help: String) -> (s: ChatService)
        ensures
            s.wf(),
            s.cv() == (ChatView {
                users: Map::<UserId, ParticipantView>::empty(),
                order: Seq::<UserId>::empty(),
                login_id: Map::<Seq<char>, UserId>::empty(),
                help: help@,
            }),
    {
        ChatService { users: Table::new(), login_id: Table::new(), help }
    }

    /// One send of the line to every participant, in joining order.
    fn broadcast(&self, line: &String) -> (acts: Vec<ChatAction>)
        requires
            self.wf(),
        ensures
            chat_acts_view(acts@) == spec_broadcast(self.cv().order, line@),
    {
        let ghost order = self.cv().order;
        let mut acts: Vec<ChatAction> = Vec::new();
        let n = self.users.len();
        proof {
            assert(chat_acts_view(acts@) =~= spec_broadcast(order, line@).take(0));
        }
        let mut i: usize = 0;
        while i < n
            invariant
                self.wf(),
                n == order.len(),
                order == self.cv().order,
                0 <= i <= n,
                chat_acts_view(acts@) == spec_broadcast(order, line@).take(i as int),
            decreases n - i,
        {
            let p = self.users.pair_at(i);
            let q = p.1.user.send_arc(line.clone());
            let ghost a0 = acts@;
            acts.push(ChatAction::ToSocket(q));
            proof {
                assert(self.cv().users.contains_key(p.0@) && self.cv().users[p.0@] == p.1@);
                assert(p.1@.user.id == p.0@);
                let bv = spec_broadcast(order, line@);
                assert(acts@ == a0.push(ChatAction::ToSocket(q)));
                assert(chat_acts_view(acts@) =~= chat_acts_view(a0).push(ChatAction::ToSocket(q)@));
                assert(ChatAction::ToSocket(q)@ == chat_send(order[i as int], line@));
                assert(bv[i as int] == chat_send(order[i as int], line@));
                assert(bv.take(i + 1) =~= bv.take(i as int).push(bv[i as int]));
                assert(chat_acts_view(acts@) =~= bv.take(i + 1));
            }
            i = i + 1;
        }
        proof {
            assert(spec_broadcast(order, line@).take(n as int) =~= spec_broadcast(order, line@));
        }
        acts
    }

    /// A user authenticated: add it to the room and tell everyone.
    pub fn handle_new_user(&mut self, user: User, now: ClockTime) -> (acts: Vec<ChatAction>)
        requires
            old(self).wf(),
            now.wf(),
            !old(self).cv().users.contains_key(user@.id),
            !old(self).cv().login_id.contains_key(user@.login),
        ensures
            final(self).wf(),
            final(self).cv() == spec_chat_new_user(old(self).cv(), user@, now).0,
            chat_acts_view(acts@) == spec_chat_new_user(old(self).cv(), user@, now).1,
    {
        let ghost s0 = self.cv();
        let id = user.get_id();
        self.login_id.insert(user.login.clone(), id);
        let info = UserInfo {
            user: user.dup(),
            mute: MuteLevel::DenyAll(observer_reason()),
        };
        self.users.insert(id, info);
        proof {
            assert(self.cv() =~= spec_chat_new_user(s0, user@, now).0);
            assert(chat_view_wf(self.cv()));
        }
        let line = connected_line(now, user.get_login());
        let mut acts = self.broadcast(&line);
        acts.push(ChatAction::Game(GameEvent::Connected(Player { user })));
        proof {
            assert(chat_acts_view(acts@) =~= spec_chat_new_user(s0, user@, now).1);
        }
        acts
    }

    /// A user's connection closed: drop it from the room and tell the
    /// others.
    pub fn handle_drop_user(&mut self, id: UserId, now: ClockTime) -> (acts: Vec<ChatAction>)
        requires
            old(self).wf(),
            now.wf(),
        ensures
            final(self).wf(),
            final(self).cv() == spec_chat_drop(old(self).cv(), id, now).0,
            chat_acts_view(acts@) == spec_chat_drop(old(self).cv(), id, now).1,
    {
        let ghost s0 = self.cv();
        match self.users.remove(&id) {
            None => {
                let acts: Vec<ChatAction> = Vec::new();
                proof {
                    assert(chat_acts_view(acts@) =~= Seq::<ChatActionView>::empty());
                }
                acts
            },
            Some(info) => {
                proof {
                    old(self).users.lemma_views();
                    let i = choose|i: int|
                        0 <= i < s0.order.len() && s0.order[i] == id && self.users.keys()
                            =~= s0.order.remove(i) && self.users.vals() =~= old(
                            self,
                        ).users.vals().remove(i);
                    lemma_remove_id_at(s0.order, i, id);
                }
                self.login_id.remove(&info.user.login);
                proof {
                    assert(self.cv() =~= spec_chat_drop(s0, id, now).0);
                    assert(chat_view_wf(self.cv()));
                }
                let line = disconnected_line(now, info.user.get_login());
                let mut acts = self.broadcast(&line);
                acts.push(ChatAction::Game(GameEvent::Disconnected(id)));
                proof {
                    assert(chat_acts_view(acts@) =~= spec_chat_drop(s0, id, now).1);
                }
                acts
            },
        }
    }

    /// A mute request from the game.
    pub fn handle_mute_request(&mut self, id: PlayerId, level: MuteLevel)
        requires
            old(self).wf(),
        ensures
            final(self).wf(),
            final(self).cv() == spec_chat_mute(old(self).cv(), id, level@),
    {
        let ghost s0 = self.cv();
        let user = match self.users.get(&id) {
            None => {
                proof {
                    assert(self.cv() =~= spec_chat_mute(s0, id, level@));
                }
                return ;
            },
            Some(info) => info.user.dup(),
        };
        self.users.insert(id, UserInfo { user, mute: level });
        proof {
            assert(self.cv() =~= spec_chat_mute(s0, id, level@));
            assert(chat_view_wf(self.cv()));
        }
    }

    /// A request from the game's side channel.
    pub fn handle_request(&mut self, request: ChatRequest)
        requires
            old(self).wf(),
        ensures
            final(self).wf(),
            request@ matches ChatRequestView::MutePlayer(id, level) ==> final(self).cv()
                == spec_chat_mute(old(self).cv(), id, level),
    {
        match request {
            ChatRequest::MutePlayer(id, level) => self.handle_mute_request(id, level),
        }
    }

    /// A line from a participant: classify it and act on it. The state
    /// does not change.
    pub fn handle_new_message(&self, id: UserId, data: String, now: ClockTime) -> (acts: Vec<
        ChatAction,
    >)
        requires
            self.wf(),
            now.wf(),
        ensures
            chat_acts_view(acts@) == spec_chat_msg(self.cv(), id, data@, now),
    {
        let info = match self.users.get(&id) {
            None => {
                let acts: Vec<ChatAction> = Vec::new();
                proof {
                    assert(chat_acts_view(acts@) =~= Seq::<ChatActionView>::empty());
                }
                return acts;
            },
            Some(info) => info,
        };
        match Message::parse(data.as_str()) {
            Message::Public(body) => self.handle_public_message(info, &body, now),
            Message::Private(body, recipients) => self.handle_private_message(
                info,
                &body,
                recipients,
                now,
            ),
            Message::Command(cmd) => self.handle_command(info, &cmd),
            Message::Action(arg) => {
                let acts = vec![
                    ChatAction::Game(GameEvent::Action(info.user.get_id(), arg)),
                ];
                proof {
                    assert(chat_acts_view(acts@) =~= spec_chat_msg(self.cv(), id, data@, now));
                }
                acts
            },
        }
    }

    /// A public line: muted senders get the reason, empty bodies are
    /// dropped, anything else goes to the whole room.
    fn handle_public_message(&self, info: &UserInfo, body: &String, now: ClockTime) -> (acts: Vec<
        ChatAction,
    >)
        requires
            self.wf(),
            now.wf(),
        ensures
            chat_acts_view(acts@) == if !mute_public_allowed(info@.mute) {
                seq![chat_send(info@.user.id, mute_reason(info@.mute))]
            } else if body@.len() == 0 {
                Seq::<ChatActionView>::empty()
            } else {
                spec_broadcast(self.cv().order, spec_public_line(now, info@.user.login, body@))
            },
    {
        if !info.mute.public_allowed() {
            let q = info.user.send_static(info.mute.get_reason());
            let acts = vec![ChatAction::ToSocket(q)];
            proof {
                assert(chat_acts_view(acts@) =~= seq![
                    chat_send(info@.user.id, mute_reason(info@.mute)),
                ]);
            }
            acts
        } else if body.as_str().is_empty() {
            let acts: Vec<ChatAction> = Vec::new();
            proof {
                assert(chat_acts_view(acts@) =~= Seq::<ChatActionView>::empty());
            }
            acts
        } else {
            let line = public_line(now, info.user.get_login(), body.as_str());
            self.broadcast(&line)
        }
    }

    /// A command line, dispatched by name.
    fn handle_command(&self, info: &UserInfo, cmd: &String) -> (acts: Vec<ChatAction>)
        requires
            self.wf(),
        ensures
            chat_acts_view(acts@) == spec_command(self.cv(), info@.user.id, cmd@),
    {
        let act: ChatAction = if str_eq(cmd.as_str(), "help") {
            ChatAction::ToSocket(info.user.send_static(self.help.as_str()))
        } else if str_eq(cmd.as_str(), "quit") {
            ChatAction::ToSocket(info.user.drop())
        } else if str_eq(cmd.as_str(), "list") {
            ChatAction::Game(GameEvent::CommandList(info.user.get_id()))
        } else if str_eq(cmd.as_str(), "observe") {
            ChatAction::Game(GameEvent::CommandObserve(info.user.get_id()))
        } else if str_eq(cmd.as_str(), "play") {
            ChatAction::Game(GameEvent::CommandPlay(info.user.get_id()))
        } else if str_eq(cmd.as_str(), "pause") {
            ChatAction::Game(GameEvent::CommandPause(info.user.get_id()))
        } else if str_eq(cmd.as_str(), "start") {
            ChatAction::Game(GameEvent::CommandStart(info.user.get_id()))
        } else {
            ChatAction::ToSocket(info.user.send_static("Unknown command.\n"))
        };
        let acts = vec![act];
        proof {
            assert(chat_acts_view(acts@) =~= seq![act@]);
        }
        acts
    }

    /// A private line, validated and delivered as `spec_private_msg`
    /// says.
    fn handle_private_message(
        &self,
        info: &UserInfo,
        body: &String,
        recipients: Vec<String>,
        now: ClockTime,
    ) -> (acts: Vec<ChatAction>)
        requires
            self.wf(),
            now.wf(),
        ensures
            chat_acts_view(acts@) == spec_private_msg(
                self.cv(),
                info@,
                body@,
                strs_view(recipients@),
                now,
            ),
    {
        let ghost s = self.cv();
        let ghost rv = strs_view(recipients@);
        if !info.mute.private_allowed() {
            let q = info.user.send_static(info.mute.get_reason());
            let acts = vec![ChatAction::ToSocket(q)];
            proof {
                assert(chat_acts_view(acts@) =~= seq![
                    chat_send(info@.user.id, mute_reason(info@.mute)),
                ]);
            }
            return acts;
        }
        if body.as_str().is_empty() {
            let q = info.user.send_static("Can't send an empty private message.\n");
            let acts = vec![ChatAction::ToSocket(q)];
            proof {
                assert(chat_acts_view(acts@) =~= seq![
                    chat_send(info@.user.id, spec_empty_private()),
                ]);
            }
            return acts;
        }
        if recipients.len() == 0 {
            let q = info.user.send_static("No recipients in your private message.\n");
            let acts = vec![ChatAction::ToSocket(q)];
            proof {
                assert(chat_acts_view(acts@) =~= seq![
                    chat_send(info@.user.id, spec_no_recipients()),
                ]);
            }
            return acts;
        }
        // find the recipients that name no known login
        let mut unknown: Vec<String> = Vec::new();
        proof {
            assert(strs_view(unknown@) =~= spec_unknown_of(s.login_id, rv.take(0)));
        }
        let mut j: usize = 0;
        while j < recipients.len()
            invariant
                self.wf(),
                s == self.cv(),
                rv == strs_view(recipients@),
                rv.len() == recipients@.len(),
                0 <= j <= rv.len(),
                strs_view(unknown@) == spec_unknown_of(s.login_id, rv.take(j as int)),
            decreases rv.len() - j,
        {
            proof {
                assert(rv.take(j + 1).drop_last() =~= rv.take(j as int));
                assert(rv.take(j + 1).last() == rv[j as int]);
                assert(rv[j as int] == recipients@[j as int]@);
            }
            if !self.login_id.contains(&recipients[j]) {
                unknown.push(recipients[j].clone());
                proof {
                    assert(strs_view(unknown@) =~= spec_unknown_of(s.login_id, rv.take(j as int)).push(
                        rv[j as int],
                    ));
                }
            }
            j = j + 1;
        }
        proof {
            assert(rv.take(rv.len() as int) =~= rv);
        }
        if unknown.len() > 0 {
            let line = unknown_line(&unknown);
            let q = info.user.send(line);
            let acts = vec![ChatAction::ToSocket(q)];
            proof {
                assert(chat_acts_view(acts@) =~= seq![
                    chat_send(info@.user.id, spec_unknown_line(spec_unknown_of(s.login_id, rv))),
                ]);
            }
            return acts;
        }
        // format once, with the recipients in the order given
        let line = private_line(now, info.user.get_login(), &recipients, body.as_str());
        // sort and deduplicate before delivery
        let sorted = sort_strs(recipients);
        let targets = dedup_adjacent(sorted);
        let ghost tv = strs_view(targets@);
        proof {
            assert(tv == spec_dedup(spec_sort(rv)));
        }
        let mut acts: Vec<ChatAction> = Vec::new();
        proof {
            assert(chat_acts_view(acts@) =~= spec_target_sends(
                s.login_id,
                info@.user.login,
                tv.take(0),
                line@,
            ));
        }
        let mut k: usize = 0;
        while k < targets.len()
            invariant
                self.wf(),
                s == self.cv(),
                now.wf(),
                tv == strs_view(targets@),
                tv.len() == targets@.len(),
                tv == spec_dedup(spec_sort(rv)),
                spec_unknown_of(s.login_id, rv).len() == 0,
                0 <= k <= tv.len(),
                chat_acts_view(acts@) == spec_target_sends(
                    s.login_id,
                    info@.user.login,
                    tv.take(k as int),
                    line@,
                ),
            decreases tv.len() - k,
        {
            proof {
                assert(tv.take(k + 1).drop_last() =~= tv.take(k as int));
                assert(tv.take(k + 1).last() == tv[k as int]);
                assert(tv[k as int] == targets@[k as int]@);
            }
            if !str_eq(targets[k].as_str(), info.user.get_login()) {
                proof {
                    assert(tv.contains(tv[k as int]));
                    lemma_dedup_contains(spec_sort(rv), tv[k as int]);
                    lemma_sort_contains(rv, tv[k as int]);
                    lemma_unknown_empty_all_known(s.login_id, rv);
                }
                match self.login_id.get(&targets[k]) {
                    Some(uid) => {
                        let q = SocketRequest::SendMessage(
                            *uid,
                            SocketMessage::Shared(line.clone()),
                        );
                        acts.push(ChatAction::ToSocket(q));
                        proof {
                            assert(chat_acts_view(acts@) =~= spec_target_sends(
                                s.login_id,
                                info@.user.login,
                                tv.take(k as int),
                                line@,
                            ).push(chat_send(s.login_id[tv[k as int]], line@)));
                        }
                    },
                    None => {
                        proof {
                            assert(false);
                        }
                    },
                }
            }
            k = k + 1;
        }
        proof {
            assert(tv.take(tv.len() as int) =~= tv);
        }
        let q = info.user.send_arc(line);
        acts.push(ChatAction::ToSocket(q));
        proof {
            assert(chat_acts_view(acts@) =~= spec_target_sends(
                s.login_id,
                info@.user.login,
                tv,
                line@,
            ).push(chat_send(info@.user.id, line@)));
        }
        acts
    }

    /// One turn of the service's loop on a user event, at the given
    /// wall-clock reading.
    pub fn handle_user_event_at(&mut self, event: UserEvent, now: ClockTime) -> (acts: Vec<
        ChatAction,
    >)
        requires
            old(self).wf(),
            now.wf(),
            event@ matches UserEventView::NewUser(u) ==> !old(self).cv().users.contains_key(u.id)
                && !old(self).cv().login_id.contains_key(u.login),
        ensures
            final(self).wf(),
            final(self).cv() == spec_chat_user_step(old(self).cv(), event@, now).0,
            chat_acts_view(acts@) == spec_chat_user_step(old(self).cv(), event@, now).1,
    {
        match event {
            UserEvent::NewUser(user) => self.handle_new_user(user, now),
            UserEvent::NewMessage(id, data) => self.handle_new_message(id, data, now),
            UserEvent::DropUser(id) => self.handle_drop_user(id, now),
        }
    }

    /// One turn of the service's loop on a user event, stamped with the
    /// wall clock as it reads now.
    pub fn handle_user_event(&mut self, event: UserEvent) -> (acts: Vec<ChatAction>)
        requires
            old(self).wf(),
            event@ matches UserEventView::NewUser(u) ==> !old(self).cv().users.contains_key(u.id)
                && !old(self).cv().login_id.contains_key(u.login),
        ensures
            final(self).wf(),
            exists|t: ClockTime|
                {
                    &&& #[trigger] t.wf()
                    &&& final(self).cv() == spec_chat_user_step(old(self).cv(), event@, t).0
                    &&& chat_acts_view(acts@) == spec_chat_user_step(old(self).cv(), event@, t).1
                },
    {
        let now = ClockTime::now();
        let acts = self.handle_user_event_at(event, now);
        proof {
            assert(now.wf() && final(self).cv() == spec_chat_user_step(old(self).cv(), event@, now).0
                && chat_acts_view(acts@) == spec_chat_user_step(old(self).cv(), event@, now).1);
        }
        acts
    }
}

/// A sequence of recipients with no unknown login names every one.
proof fn lemma_unknown_empty_all_known(login_id: Map<Seq<char>, UserId>, recips: Seq<Seq<char>>)
    requires
        spec_unknown_of(login_id, recips).len() == 0,
    ensures
        forall|y: Seq<char>| recips.contains(y) ==> login_id.contains_key(y),
    decreases recips.len(),
{
    if recips.len() > 0 {
        lemma_unknown_empty_all_known(login_id, recips.drop_last());
        assert forall|y: Seq<char>| recips.contains(y) implies login_id.contains_key(y) by {
            let j = choose|j: int| 0 <= j < recips.len() && recips[j] == y;
            if j < recips.len() - 1 {
                assert(recips.drop_last()[j] == y);
                assert(recips.drop_last().contains(y));
            }
        }
    }
}

/// Removing the unique occurrence of an id from an order.
proof fn lemma_remove_id_at(s: Seq<UserId>, i: int, id: UserId)
    requires
        s.no_duplicates(),
        0 <= i < s.len(),
        s[i] == id,
    ensures
        s.remove(i) =~= remove_id(s, id),
    decreases s.len(),
{
    if i == 0 {
        assert(s.remove(0) =~= s.drop_first());
    } else {
        assert(s[0] != id);
        lemma_remove_id_at(s.drop_first(), i - 1, id);
        assert(s.remove(i) =~= seq![s[0]] + s.drop_first().remove(i - 1));
    }
}


/// A public line from an unmuted participant is echoed to every
/// participant, the sender included, with the body exactly the line the
/// sender sent, between the clock prefix and the final newline.
pub proof fn lemma_echo_body(s: ChatView, id: UserId, line: Seq<char>, t: ClockTime)
    requires
        s.users.contains_key(id),
        mute_public_allowed(s.users[id].mute),
        line.len() > 0,
        line[0] != '+',
        line[0] != '!',
    ensures
        spec_chat_msg(s, id, line, t) == spec_broadcast(
            s.order,
            spec_hh_mm(t) + " ["@ + s.users[id].user.login + "] "@ + line + "\n"@,
        ),
{
}

/// The help command is a pure function of the current help text: it
/// answers the sender with that text alone, whatever the clock reads,
/// and handling a line never changes the chat state.
pub proof fn lemma_help_pure(
    s: ChatView,
    id: UserId,
    line: Seq<char>,
    t1: ClockTime,
    t2: ClockTime,
)
    requires
        s.users.contains_key(id),
        spec_parse(line) == MessageView::Command("help"@),
    ensures
        spec_chat_msg(s, id, line, t1) == seq![chat_send(id, s.help)],
        spec_chat_msg(s, id, line, t1) == spec_chat_msg(s, id, line, t2),
{
}

/// Each of the game-surface commands results in exactly one action, a
/// game event, and nothing else.
pub proof fn lemma_commands_one_game_event(s: ChatView, id: UserId, cmd: Seq<char>)
    requires
        cmd == "list"@ || cmd == "observe"@ || cmd == "play"@ || cmd == "pause"@ || cmd
            == "start"@,
    ensures
        spec_command(s, id, cmd).len() == 1,
        spec_command(s, id, cmd)[0] is Game,
{
    reveal_strlit("help");
    reveal_strlit("quit");
    reveal_strlit("list");
    reveal_strlit("observe");
    reveal_strlit("play");
    reveal_strlit("pause");
    reveal_strlit("start");
    assert("list"@ != "help"@) by {
        assert("list"@[0] != "help"@[0]);
    }
    assert("list"@ != "quit"@) by {
        assert("list"@[0] != "quit"@[0]);
    }
    assert("play"@ != "help"@) by {
        assert("play"@[0] != "help"@[0]);
    }
    assert("play"@ != "quit"@) by {
        assert("play"@[0] != "quit"@[0]);
    }
    assert("play"@ != "list"@) by {
        assert("play"@[0] != "list"@[0]);
    }
    assert("pause"@ != "start"@) by {
        assert("pause"@[0] != "start"@[0]);
    }
    assert("observe"@ != "help"@ && "observe"@ != "quit"@ && "observe"@ != "list"@) by {
        assert("observe"@.len() != "help"@.len());
        assert("observe"@.len() != "quit"@.len());
        assert("observe"@.len() != "list"@.len());
    }
    assert("play"@ != "observe"@) by {
        assert("play"@.len() != "observe"@.len());
    }
    assert("pause"@ != "help"@ && "pause"@ != "quit"@ && "pause"@ != "list"@ && "pause"@
        != "observe"@ && "pause"@ != "play"@) by {
        assert("pause"@.len() != "help"@.len());
        assert("pause"@.len() != "quit"@.len());
        assert("pause"@.len() != "list"@.len());
        assert("pause"@.len() != "observe"@.len());
        assert("pause"@.len() != "play"@.len());
    }
    assert("start"@ != "help"@ && "start"@ != "quit"@ && "start"@ != "list"@ && "start"@
        != "observe"@ && "start"@ != "play"@) by {
        assert("start"@.len() != "help"@.len());
        assert("start"@.len() != "quit"@.len());
        assert("start"@.len() != "list"@.len());
        assert("start"@.len() != "observe"@.len());
        assert("start"@.len() != "play"@.len());
    }
    if cmd == "list"@ {
        assert(spec_command(s, id, cmd) =~= seq![
            ChatActionView::Game(GameEventView::CommandList(id)),
        ]);
    } else if cmd == "observe"@ {
        assert(spec_command(s, id, cmd) =~= seq![
            ChatActionView::Game(GameEventView::CommandObserve(id)),
        ]);
    } else if cmd == "play"@ {
        assert(spec_command(s, id, cmd) =~= seq![
            ChatActionView::Game(GameEventView::CommandPlay(id)),
        ]);
    } else if cmd == "pause"@ {
        assert(spec_command(s, id, cmd) =~= seq![
            ChatActionView::Game(GameEventView::CommandPause(id)),
        ]);
    } else {
        assert(spec_command(s, id, cmd) =~= seq![
            ChatActionView::Game(GameEventView::CommandStart(id)),
        ]);
    }
}

} // verus!
