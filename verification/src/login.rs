//! The login service: a per-connection authentication state machine over a
//! process-wide registry of accounts. A connection walks Initial →
//! GotLogin → Authenticated; the registry keeps each login's secret and
//! whether some live connection holds it. The service consumes socket
//! events and produces prompts downward and user events upward.
use vstd::prelude::*;
use vstd::string::StringExecFns;

use crate::SocketId;
use crate::socket::{SocketEvent, SocketProxy, SocketRequest, SocketRequestView};
use crate::table::Table;

verus! {

pub type UserId = SocketId;

/// An authenticated user: the login it chose and the proxy of its
/// connection. Its id is its connection's.
pub struct User {
    pub login: String,
    pub socket: SocketProxy,
}

#[verifier::ext_equal]
pub struct UserView {
    pub id: UserId,
    pub login: Seq<char>,
}

impl View for User {
    type V = UserView;

    open spec fn view(&self) -> UserView {
        UserView { id: self.socket.id, login: self.login@ }
    }
}

impl User {
    pub fn get_id(&self) -> (r: UserId)
        ensures
            r == self@.id,
    {
        self.socket.get_id()
    }

    pub fn get_login(&self) -> (r: &str)
        ensures
            r@ == self@.login,
    {
        self.login.as_str()
    }

    /// A copy of this user handle.
    pub fn dup(&self) -> (r: User)
        ensures
            r@ == self@,
    {
        User { login: self.login.clone(), socket: SocketProxy { id: self.socket.id } }
    }

    /// A send request for this user's connection, owned carrier.
    pub fn send(&self, message: String) -> (q: SocketRequest)
        ensures
            q@ == SocketRequestView::SendMessage(self@.id, message@),
    {
        self.socket.send(message)
    }

    /// A send request for this user's connection, boxed carrier.
    pub fn send_boxed(&self, message: String) -> (q: SocketRequest)
        ensures
            q@ == SocketRequestView::SendMessage(self@.id, message@),
    {
        self.socket.send_boxed(message)
    }

    /// A send request for this user's connection, shared carrier.
    pub fn send_arc(&self, message: String) -> (q: SocketRequest)
        ensures
            q@ == SocketRequestView::SendMessage(self@.id, message@),
    {
        self.socket.send_arc(message)
    }

    /// A send request for this user's connection, static carrier.
    pub fn send_static(&self, message: &str) -> (q: SocketRequest)
        ensures
            q@ == SocketRequestView::SendMessage(self@.id, message@),
    {
        self.socket.send_static(message)
    }

    /// A request to close this user's connection.
    pub fn drop(&self) -> (q: SocketRequest)
        ensures
            q@ == SocketRequestView::CloseSocket(self@.id),
    {
        self.socket.close()
    }
}

/// What the login service reports upward to the chat service.
pub enum UserEvent {
    NewUser(User),
    NewMessage(UserId, String),
    DropUser(UserId),
}

#[verifier::ext_equal]
pub enum UserEventView {
    NewUser(UserView),
    NewMessage(UserId, Seq<char>),
    DropUser(UserId),
}

impl View for UserEvent {
    type V = UserEventView;

    open spec fn view(&self) -> UserEventView {
        match self {
            UserEvent::NewUser(u) => UserEventView::NewUser(u@),
            UserEvent::NewMessage(id, s) => UserEventView::NewMessage(*id, s@),
            UserEvent::DropUser(id) => UserEventView::DropUser(*id),
        }
    }
}

/// Where a connection stands in authentication.
pub enum AuthState {
    Initial(SocketProxy),
    GotLogin(SocketProxy, String),
    Authenticated(User),
}

#[verifier::ext_equal]
pub enum AuthStateView {
    Initial(SocketId),
    GotLogin(SocketId, Seq<char>),
    Authenticated(UserView),
}

impl View for AuthState {
    type V = AuthStateView;

    open spec fn view(&self) -> AuthStateView {
        match self {
            AuthState::Initial(p) => AuthStateView::Initial(p.id),
            AuthState::GotLogin(p, l) => AuthStateView::GotLogin(p.id, l@),
            AuthState::Authenticated(u) => AuthStateView::Authenticated(u@),
        }
    }
}

/// An account: its stored secret, and whether a live connection holds it.
pub enum LoginState {
    Online(String),
    Offline(String),
}

#[verifier::ext_equal]
pub enum LoginStateView {
    Online(Seq<char>),
    Offline(Seq<char>),
}

impl View for LoginState {
    type V = LoginStateView;

    open spec fn view(&self) -> LoginStateView {
        match self {
            LoginState::Online(s) => LoginStateView::Online(s@),
            LoginState::Offline(s) => LoginStateView::Offline(s@),
        }
    }
}

/// What the login service does in response to an input: a request down
/// to the socket service, or a user event up to the chat service.
pub enum LoginAction {
    ToSocket(SocketRequest),
    Emit(UserEvent),
}

#[verifier::ext_equal]
pub enum LoginActionView {
    ToSocket(SocketRequestView),
    Emit(UserEventView),
}

impl View for LoginAction {
    type V = LoginActionView;

    open spec fn view(&self) -> LoginActionView {
        match self {
            LoginAction::ToSocket(q) => LoginActionView::ToSocket(q@),
            LoginAction::Emit(e) => LoginActionView::Emit(e@),
        }
    }
}

/// The views of a vector of login actions.
pub open spec fn login_acts_view(v: Seq<LoginAction>) -> Seq<LoginActionView> {
    v.map_values(|a: LoginAction| a@)
}

/// A send of the given line to the given connection.
pub open spec fn send_to(id: SocketId, line: Seq<char>) -> LoginActionView {
    LoginActionView::ToSocket(SocketRequestView::SendMessage(id, line))
}

// The exact server prompts.
pub open spec fn spec_welcome_banner() -> Seq<char> {
    "Welcome to the Mafia server!\nPlease enter your nickname: "@
}

pub open spec fn spec_already_online(login: Seq<char>) -> Seq<char> {
    "Player \""@ + login + "\" is already online.\nPlease enter your nickname: "@
}

pub open spec fn spec_password_prompt(login: Seq<char>) -> Seq<char> {
    "Password for \""@ + login + "\": "@
}

pub open spec fn spec_create_prompt(login: Seq<char>) -> Seq<char> {
    "Creating player \""@ + login + "\". Enter password: "@
}

pub open spec fn spec_welcome_back(login: Seq<char>) -> Seq<char> {
    "Welcome back, "@ + login + "!\n"@
}

pub open spec fn spec_password_created(login: Seq<char>) -> Seq<char> {
    "Password created. Welcome, "@ + login + "!\n"@
}

pub open spec fn spec_wrong_password() -> Seq<char> {
    "Incorrect password.\nPlease enter your nickname: "@
}

pub fn welcome_banner() -> (r: String)
    ensures
        r@ == spec_welcome_banner(),
{
    "Welcome to the Mafia server!\nPlease enter your nickname: ".to_owned()
}

pub fn already_online_prompt(login: &str) -> (r: String)
    ensures
        r@ == spec_already_online(login@),
{
    let mut s = "Player \"".to_owned();
    s.append(login);
    s.append("\" is already online.\nPlease enter your nickname: ");
    s
}

pub fn password_prompt(login: &str) -> (r: String)
    ensures
        r@ == spec_password_prompt(login@),
{
    let mut s = "Password for \"".to_owned();
    s.append(login);
    s.append("\": ");
    s
}

pub fn create_prompt(login: &str) -> (r: String)
    ensures
        r@ == spec_create_prompt(login@),
{
    let mut s = "Creating player \"".to_owned();
    s.append(login);
    s.append("\". Enter password: ");
    s
}

pub fn welcome_back(login: &str) -> (r: String)
    ensures
        r@ == spec_welcome_back(login@),
{
    let mut s = "Welcome back, ".to_owned();
    s.append(login);
    s.append("!\n");
    s
}

pub fn password_created(login: &str) -> (r: String)
    ensures
        r@ == spec_password_created(login@),
{
    let mut s = "Password created. Welcome, ".to_owned();
    s.append(login);
    s.append("!\n");
    s
}

pub fn wrong_password() -> (r: String)
    ensures
        r@ == spec_wrong_password(),
{
    "Incorrect password.\nPlease enter your nickname: ".to_owned()
}

/// The mathematical state of the login service: the slot of each open
/// connection and the account registry.
#[verifier::ext_equal]
pub struct LoginView {
    pub auth: Map<UserId, AuthStateView>,
    pub accounts: Map<Seq<char>, LoginStateView>,
}

/// A slot speaks about the connection it is keyed under.
pub open spec fn slot_ok(id: UserId, slot: AuthStateView) -> bool {
    match slot {
        AuthStateView::Initial(pid) => pid == id,
        AuthStateView::GotLogin(pid, _) => pid == id,
        AuthStateView::Authenticated(u) => u.id == id,
    }
}

/// The login service's invariant: slots are keyed by their own
/// connection, an authenticated slot's account is online, and no two
/// slots hold the same login.
pub open spec fn login_view_wf(s: LoginView) -> bool {
    &&& forall|id: UserId| s.auth.contains_key(id) ==> slot_ok(id, #[trigger] s.auth[id])
    &&& forall|id: UserId|
        s.auth.contains_key(id) ==> match #[trigger] s.auth[id] {
            AuthStateView::Authenticated(u) => s.accounts.contains_key(u.login)
                && s.accounts[u.login] is Online,
            _ => true,
        }
    &&& forall|id1: UserId, id2: UserId|
        s.auth.contains_key(id1) && s.auth.contains_key(id2) && id1 != id2 ==> match (
        #[trigger] s.auth[id1],
        #[trigger] s.auth[id2],
        ) {
            (AuthStateView::Authenticated(u1), AuthStateView::Authenticated(u2)) => u1.login
                != u2.login,
            _ => true,
        }
}

/// A new connection: greet it and open an Initial slot.
pub open spec fn spec_login_new_socket(s: LoginView, id: SocketId) -> (LoginView, Seq<
    LoginActionView,
>) {
    (
        LoginView { auth: s.auth.insert(id, AuthStateView::Initial(id)), accounts: s.accounts },
        seq![send_to(id, spec_welcome_banner())],
    )
}

/// A line from a connection, fed through the authentication machine.
pub open spec fn spec_login_msg(s: LoginView, id: SocketId, data: Seq<char>) -> (LoginView, Seq<
    LoginActionView,
>) {
    if !s.auth.contains_key(id) {
        (s, Seq::empty())
    } else {
        match s.auth[id] {
            AuthStateView::Initial(_) => {
                let login = data;
                if s.accounts.contains_key(login) {
                    if s.accounts[login] is Online {
                        (s, seq![send_to(id, spec_already_online(login))])
                    } else {
                        (
                            LoginView {
                                auth: s.auth.insert(id, AuthStateView::GotLogin(id, login)),
                                accounts: s.accounts,
                            },
                            seq![send_to(id, spec_password_prompt(login))],
                        )
                    }
                } else {
                    (
                        LoginView {
                            auth: s.auth.insert(id, AuthStateView::GotLogin(id, login)),
                            accounts: s.accounts,
                        },
                        seq![send_to(id, spec_create_prompt(login))],
                    )
                }
            },
            AuthStateView::GotLogin(_, login) => {
                let password = data;
                if s.accounts.contains_key(login) {
                    match s.accounts[login] {
                        LoginStateView::Online(_) => {
                            (
                                LoginView {
                                    auth: s.auth.insert(id, AuthStateView::Initial(id)),
                                    accounts: s.accounts,
                                },
                                seq![send_to(id, spec_already_online(login))],
                            )
                        },
                        LoginStateView::Offline(stored) => {
                            if password == stored {
                                let u = UserView { id, login };
                                (
                                    LoginView {
                                        auth: s.auth.insert(
                                            id,
                                            AuthStateView::Authenticated(u),
                                        ),
                                        accounts: s.accounts.insert(
                                            login,
                                            LoginStateView::Online(stored),
                                        ),
                                    },
                                    seq![
                                        send_to(id, spec_welcome_back(login)),
                                        LoginActionView::Emit(UserEventView::NewUser(u)),
                                    ],
                                )
                            } else {
                                (
                                    LoginView {
                                        auth: s.auth.insert(id, AuthStateView::Initial(id)),
                                        accounts: s.accounts,
                                    },
                                    seq![send_to(id, spec_wrong_password())],
                                )
                            }
                        },
                    }
                } else {
                    let u = UserView { id, login };
                    (
                        LoginView {
                            auth: s.auth.insert(id, AuthStateView::Authenticated(u)),
                            accounts: s.accounts.insert(login, LoginStateView::Online(password)),
                        },
                        seq![
                            send_to(id, spec_password_created(login)),
                            LoginActionView::Emit(UserEventView::NewUser(u)),
                        ],
                    )
                }
            },
            AuthStateView::Authenticated(_) => {
                (s, seq![LoginActionView::Emit(UserEventView::NewMessage(id, data))])
            },
        }
    }
}

/// A closed connection: its slot is discarded; if it was authenticated,
/// its account goes offline with the secret preserved and the user is
/// dropped upward.
pub open spec fn spec_login_closed(s: LoginView, id: SocketId) -> (LoginView, Seq<
    LoginActionView,
>) {
    if !s.auth.contains_key(id) {
        (s, Seq::empty())
    } else {
        match s.auth[id] {
            AuthStateView::Authenticated(u) => {
                let secret = s.accounts[u.login]->Online_0;
                (
                    LoginView {
                        auth: s.auth.remove(id),
                        accounts: s.accounts.insert(u.login, LoginStateView::Offline(secret)),
                    },
                    seq![LoginActionView::Emit(UserEventView::DropUser(id))],
                )
            },
            _ => (LoginView { auth: s.auth.remove(id), accounts: s.accounts }, Seq::empty()),
        }
    }
}

/// The login service's state: the slot table and the account registry.
pub struct LoginService {
    auth_state: Table<u64, AuthState>,
    login_state: Table<String, LoginState>,
}

impl LoginService {
    pub closed spec fn lv(&self) -> LoginView {
        LoginView { auth: self.auth_state.map(), accounts: self.login_state.map() }
    }

    pub closed spec fn wf(&self) -> bool {
        &&& self.auth_state.wf()
        &&& self.login_state.wf()
        &&& login_view_wf(self.lv())
    }

    pub fn new() -> (s: LoginService)
        ensures
            s.wf(),
            s.lv() == (LoginView {
                auth: Map::<UserId, AuthStateView>::empty(),
                accounts: Map::<Seq<char>, LoginStateView>::empty(),
            }),
    {
        LoginService { auth_state: Table::new(), login_state: Table::new() }
    }

    /// A new connection was accepted: greet it and open its slot.
    pub fn handle_new_socket(&mut self, proxy: SocketProxy) -> (acts: Vec<LoginAction>)
        requires
            old(self).wf(),
        ensures
            final(self).wf(),
            final(self).lv() == spec_login_new_socket(old(self).lv(), proxy.id).0,
            login_acts_view(acts@) == spec_login_new_socket(old(self).lv(), proxy.id).1,
    {
        let id = proxy.get_id();
        let banner = welcome_banner();
        let q = proxy.send_static(banner.as_str());
        self.auth_state.insert(id, AuthState::Initial(proxy));
        let acts = vec![LoginAction::ToSocket(q)];
        proof {
            assert(login_acts_view(acts@) =~= seq![send_to(id, spec_welcome_banner())]);
            assert(self.lv() =~= spec_login_new_socket(old(self).lv(), id).0);
        }
        acts
    }

    /// A line arrived from a connection: advance its authentication
    /// machine, or forward the line if it is already authenticated.
    pub fn handle_new_message(&mut self, id: UserId, data: String) -> (acts: Vec<LoginAction>)
        requires
            old(self).wf(),
        ensures
            final(self).wf(),
            final(self).lv() == spec_login_msg(old(self).lv(), id, data@).0,
            login_acts_view(acts@) == spec_login_msg(old(self).lv(), id, data@).1,
    {
        let ghost s0 = self.lv();
        let slot = self.auth_state.remove(&id);
        match slot {
            None => {
                let acts: Vec<LoginAction> = Vec::new();
                proof {
                    assert(login_acts_view(acts@) =~= Seq::<LoginActionView>::empty());
                    assert(self.lv() =~= s0);
                }
                acts
            },
            Some(AuthState::Initial(proxy)) => {
                let login = data;
                let status = self.account_status(&login);
                match status {
                    AccountStatus::Online => {
                        let prompt = already_online_prompt(login.as_str());
                        let q = proxy.send(prompt);
                        self.auth_state.insert(id, AuthState::Initial(proxy));
                        let acts = vec![LoginAction::ToSocket(q)];
                        proof {
                            assert(s0.auth.insert(id, AuthStateView::Initial(id)) =~= s0.auth);
                            assert(self.lv() =~= s0);
                            assert(login_acts_view(acts@) =~= seq![
                                send_to(id, spec_already_online(login@)),
                            ]);
                        }
                        acts
                    },
                    AccountStatus::Offline => {
                        let prompt = password_prompt(login.as_str());
                        let q = proxy.send(prompt);
                        self.auth_state.insert(id, AuthState::GotLogin(proxy, login));
                        let acts = vec![LoginAction::ToSocket(q)];
                        proof {
                            assert(self.lv() =~= spec_login_msg(s0, id, data@).0);
                            assert(login_acts_view(acts@) =~= spec_login_msg(s0, id, data@).1);
                        }
                        acts
                    },
                    AccountStatus::Unknown => {
                        let prompt = create_prompt(login.as_str());
                        let q = proxy.send(prompt);
                        self.auth_state.insert(id, AuthState::GotLogin(proxy, login));
                        let acts = vec![LoginAction::ToSocket(q)];
                        proof {
                            assert(self.lv() =~= spec_login_msg(s0, id, data@).0);
                            assert(login_acts_view(acts@) =~= spec_login_msg(s0, id, data@).1);
                        }
                        acts
                    },
                }
            },
            Some(AuthState::GotLogin(proxy, login)) => {
                let password = data;
                let account = self.login_state.remove(&login);
                match account {
                    Some(LoginState::Online(secret)) => {
                        self.login_state.insert(login.clone(), LoginState::Online(secret));
                        let prompt = already_online_prompt(login.as_str());
                        let q = proxy.send(prompt);
                        self.auth_state.insert(id, AuthState::Initial(proxy));
                        let acts = vec![LoginAction::ToSocket(q)];
                        proof {
                            assert(s0.accounts.remove(login@).insert(
                                login@,
                                LoginStateView::Online(s0.accounts[login@]->Online_0),
                            ) =~= s0.accounts);
                            assert(self.lv() =~= spec_login_msg(s0, id, data@).0);
                            assert(login_acts_view(acts@) =~= spec_login_msg(s0, id, data@).1);
                        }
                        acts
                    },
                    Some(LoginState::Offline(secret)) => {
                        if password == secret {
                            let prompt = welcome_back(login.as_str());
                            let q = proxy.send(prompt);
                            let user = User { login: login.clone(), socket: proxy };
                            let user_slot = User {
                                login: login.clone(),
                                socket: SocketProxy { id: proxy.id },
                            };
                            self.login_state.insert(login, LoginState::Online(secret));
                            self.auth_state.insert(id, AuthState::Authenticated(user_slot));
                            let acts = vec![
                                LoginAction::ToSocket(q),
                                LoginAction::Emit(UserEvent::NewUser(user)),
                            ];
                            proof {
                                assert(s0.accounts.remove(login@).insert(
                                    login@,
                                    LoginStateView::Online(secret@),
                                ) =~= s0.accounts.insert(login@, LoginStateView::Online(secret@)));
                                assert(self.lv() =~= spec_login_msg(s0, id, data@).0);
                                assert(login_acts_view(acts@) =~= spec_login_msg(
                                    s0,
                                    id,
                                    data@,
                                ).1);
                                lemma_msg_wf(s0, id, data@);
                            }
                            acts
                        } else {
                            self.login_state.insert(login.clone(), LoginState::Offline(secret));
                            let q = proxy.send(wrong_password());
                            self.auth_state.insert(id, AuthState::Initial(proxy));
                            let acts = vec![LoginAction::ToSocket(q)];
                            proof {
                                assert(s0.accounts.remove(login@).insert(
                                    login@,
                                    LoginStateView::Offline(secret@),
                                ) =~= s0.accounts);
                                assert(self.lv() =~= spec_login_msg(s0, id, data@).0);
                                assert(login_acts_view(acts@) =~= spec_login_msg(
                                    s0,
                                    id,
                                    data@,
                                ).1);
                            }
                            acts
                        }
                    },
                    None => {
                        let prompt = password_created(login.as_str());
                        let q = proxy.send(prompt);
                        let user = User { login: login.clone(), socket: proxy };
                        let user_slot = User {
                            login: login.clone(),
                            socket: SocketProxy { id: proxy.id },
                        };
                        self.login_state.insert(login, LoginState::Online(password));
                        self.auth_state.insert(id, AuthState::Authenticated(user_slot));
                        let acts = vec![
                            LoginAction::ToSocket(q),
                            LoginAction::Emit(UserEvent::NewUser(user)),
                        ];
                        proof {
                            assert(s0.accounts.remove(login@) =~= s0.accounts);
                            assert(self.lv() =~= spec_login_msg(s0, id, data@).0);
                            assert(login_acts_view(acts@) =~= spec_login_msg(s0, id, data@).1);
                            lemma_msg_wf(s0, id, data@);
                        }
                        acts
                    },
                }
            },
            Some(AuthState::Authenticated(user)) => {
                let uid = user.get_id();
                self.auth_state.insert(id, AuthState::Authenticated(user));
                let acts = vec![LoginAction::Emit(UserEvent::NewMessage(uid, data))];
                proof {
                    assert(s0.auth.remove(id).insert(id, s0.auth[id]) =~= s0.auth);
                    assert(self.lv() =~= s0);
                    assert(login_acts_view(acts@) =~= seq![
                        LoginActionView::Emit(UserEventView::NewMessage(id, data@)),
                    ]);
                }
                acts
            },
        }
    }

    /// A connection closed: discard its slot; an authenticated user goes
    /// offline and is dropped upward.
    pub fn handle_closed_socket(&mut self, id: SocketId) -> (acts: Vec<LoginAction>)
        requires
            old(self).wf(),
        ensures
            final(self).wf(),
            final(self).lv() == spec_login_closed(old(self).lv(), id).0,
            login_acts_view(acts@) == spec_login_closed(old(self).lv(), id).1,
    {
        let ghost s0 = self.lv();
        let slot = self.auth_state.remove(&id);
        match slot {
            Some(AuthState::Authenticated(user)) => {
                let account = self.login_state.remove(&user.login);
                match account {
                    Some(LoginState::Online(secret)) => {
                        self.login_state.insert(user.login, LoginState::Offline(secret));
                        let acts = vec![LoginAction::Emit(UserEvent::DropUser(id))];
                        proof {
                            assert(s0.accounts.remove(user@.login).insert(
                                user@.login,
                                LoginStateView::Offline(secret@),
                            ) =~= s0.accounts.insert(
                                user@.login,
                                LoginStateView::Offline(secret@),
                            ));
                            assert(self.lv() =~= spec_login_closed(s0, id).0);
                            assert(login_acts_view(acts@) =~= spec_login_closed(s0, id).1);
                            lemma_closed_wf(s0, id);
                        }
                        acts
                    },
                    _ => {
                        // an authenticated slot always has an online account
                        proof {
                            assert(false);
                        }
                        Vec::new()
                    },
                }
            },
            Some(other) => {
                let acts: Vec<LoginAction> = Vec::new();
                proof {
                    assert(self.lv() =~= spec_login_closed(s0, id).0);
                    assert(login_acts_view(acts@) =~= Seq::<LoginActionView>::empty());
                }
                acts
            },
            None => {
                let acts: Vec<LoginAction> = Vec::new();
                proof {
                    assert(self.lv() =~= s0);
                    assert(login_acts_view(acts@) =~= Seq::<LoginActionView>::empty());
                }
                acts
            },
        }
    }

    /// One turn of the service's loop, on whichever socket event arrived.
    pub fn handle_socket_event(&mut self, event: SocketEvent) -> (acts: Vec<LoginAction>)
        requires
            old(self).wf(),
        ensures
            final(self).wf(),
            final(self).lv() == spec_login_step(old(self).lv(), event@).0,
            login_acts_view(acts@) == spec_login_step(old(self).lv(), event@).1,
    {
        match event {
            SocketEvent::NewSocket(proxy) => self.handle_new_socket(proxy),
            SocketEvent::NewMessage(id, data) => self.handle_new_message(id, data),
            SocketEvent::ClosedSocket(id) => self.handle_closed_socket(id),
        }
    }

    fn account_status(&self, login: &String) -> (r: AccountStatus)
        requires
            self.wf(),
        ensures
            match r {
                AccountStatus::Online => self.lv().accounts.contains_key(login@)
                    && self.lv().accounts[login@] is Online,
                AccountStatus::Offline => self.lv().accounts.contains_key(login@)
                    && self.lv().accounts[login@] is Offline,
                AccountStatus::Unknown => !self.lv().accounts.contains_key(login@),
            },
    {
        match self.login_state.get(login) {
            Some(LoginState::Online(_)) => AccountStatus::Online,
            Some(LoginState::Offline(_)) => AccountStatus::Offline,
            None => AccountStatus::Unknown,
        }
    }
}

enum AccountStatus {
    Online,
    Offline,
    Unknown,
}

/// One step of the login service on one socket event.
pub open spec fn spec_login_step(s: LoginView, e: crate::socket::SocketEventView) -> (LoginView, Seq<
    LoginActionView,
>) {
    match e {
        crate::socket::SocketEventView::NewSocket(id) => spec_login_new_socket(s, id),
        crate::socket::SocketEventView::NewMessage(id, data) => spec_login_msg(s, id, data),
        crate::socket::SocketEventView::ClosedSocket(id) => spec_login_closed(s, id),
    }
}

/// Advancing the machine on a line preserves the invariant.
proof fn lemma_msg_wf(s: LoginView, id: SocketId, data: Seq<char>)
    requires
        login_view_wf(s),
    ensures
        login_view_wf(spec_login_msg(s, id, data).0),
{
}

/// Discarding a closed connection's slot preserves the invariant.
proof fn lemma_closed_wf(s: LoginView, id: SocketId)
    requires
        login_view_wf(s),
    ensures
        login_view_wf(spec_login_closed(s, id).0),
{
}

} // verus!
