//! The in-game Steam server browser: the lobby list, the selected row, the
//! refresh in flight, and the lobbies joined or hosted. Lobbies and users
//! are Steam IDs (their 64-bit values); the matchmaking calls are made by
//! the caller, who hands their results in.

use vstd::prelude::*;
use vstd::utf8::{encode_utf8, valid_utf8};
use crate::text::{decimal, push_decimal, push_str, text_of};

verus! {

/// A lobby in the browser.
#[derive(Debug, Clone)]
pub struct BrowserEntry {
    pub lobby: u64,
    pub owner: u64,
    pub name: String,
    pub members: usize,
    pub max_members: usize,
}

/// What the browser's status line says.
#[derive(Debug, Clone)]
pub enum BrowserStatus {
    /// Ready; nothing asked yet.
    Ready,
    /// A refresh found this many servers.
    Found(usize),
    /// A refresh failed with this error.
    RefreshFailed(String),
    /// This lobby was joined.
    Joined(u64),
    /// Joining failed with this error.
    JoinFailed(String),
}

/// A finished matchmaking request, as reported to the browser.
#[derive(Debug)]
pub enum BrowserMessage {
    /// The lobby list, with each lobby's details, or an error.
    LobbyList(Result<Vec<BrowserEntry>, String>),
    /// The result of joining a lobby.
    JoinResult(Result<u64, String>),
    /// The result of creating the host's lobby.
    HostLobbyCreated(Result<u64, String>),
}

/// The browser's state.
#[derive(Debug)]
pub struct SteamBrowser {
    pub entries: Vec<BrowserEntry>,
    pub selected: usize,
    pub refresh_in_flight: bool,
    pub status: BrowserStatus,
    pub joined_lobby: Option<u64>,
    pub hosted_lobby: Option<u64>,
}

/// What the caller does after a message: for a created host lobby, set its
/// server name, game and joinability.
#[derive(Debug, Clone, Copy, PartialEq, Eq)]
pub enum BrowserAction {
    Nothing,
    AdvertiseHostLobby(u64),
}

/// The browser as a value.
pub struct BrowserModel {
    pub entries: Seq<BrowserEntry>,
    pub selected: usize,
    pub refresh_in_flight: bool,
    pub status: BrowserStatus,
    pub joined_lobby: Option<u64>,
    pub hosted_lobby: Option<u64>,
}

impl View for SteamBrowser {
    type V = BrowserModel;

    open spec fn view(&self) -> BrowserModel {
        BrowserModel {
            entries: self.entries@,
            selected: self.selected,
            refresh_in_flight: self.refresh_in_flight,
            status: self.status,
            joined_lobby: self.joined_lobby,
            hosted_lobby: self.hosted_lobby,
        }
    }
}

/// The browser after a finished request, and what the caller is to do. A
/// lobby list ends the refresh in flight and, when it came, replaces the
/// rows, keeps the selection within them and reports their count; an error
/// is reported. A joined lobby is recorded and reported. A created host
/// lobby is recorded as hosted and joined, and is to be advertised.
pub open spec fn browser_step(b: BrowserModel, msg: BrowserMessage) -> (BrowserModel, BrowserAction) {
    match msg {
        BrowserMessage::LobbyList(Ok(es)) => {
            let n = es@.len();
            let sel: usize = if n == 0 {
                0
            } else if b.selected < n {
                b.selected
            } else {
                (n - 1) as usize
            };
            (
                BrowserModel {
                    entries: es@,
                    selected: sel,
                    refresh_in_flight: false,
                    status: BrowserStatus::Found(n as usize),
                    ..b
                },
                BrowserAction::Nothing,
            )
        },
        BrowserMessage::LobbyList(Err(e)) => (
            BrowserModel { refresh_in_flight: false, status: BrowserStatus::RefreshFailed(e), ..b },
            BrowserAction::Nothing,
        ),
        BrowserMessage::JoinResult(Ok(lobby)) => (
            BrowserModel { joined_lobby: Some(lobby), status: BrowserStatus::Joined(lobby), ..b },
            BrowserAction::Nothing,
        ),
        BrowserMessage::JoinResult(Err(e)) => (
            BrowserModel { status: BrowserStatus::JoinFailed(e), ..b },
            BrowserAction::Nothing,
        ),
        BrowserMessage::HostLobbyCreated(Ok(lobby)) => (
            BrowserModel { hosted_lobby: Some(lobby), joined_lobby: Some(lobby), ..b },
            BrowserAction::AdvertiseHostLobby(lobby),
        ),
        BrowserMessage::HostLobbyCreated(Err(_)) => (b, BrowserAction::Nothing),
    }
}

/// The browser after the requests `msgs`, in order, and the host lobbies to
/// advertise, in order.
pub open spec fn browser_steps(b: BrowserModel, msgs: Seq<BrowserMessage>) -> (BrowserModel, Seq<u64>)
    decreases msgs.len(),
{
    if msgs.len() == 0 {
        (b, Seq::empty())
    } else {
        let (b1, ads) = browser_steps(b, msgs.drop_last());
        let (b2, a) = browser_step(b1, msgs.last());
        match a {
            BrowserAction::AdvertiseHostLobby(l) => (b2, ads.push(l)),
            BrowserAction::Nothing => (b2, ads),
        }
    }
}

/// A refreshed lobby list keeps the selection where it can: after a list of
/// `n > 0` lobbies the selected row is the old one when it is still in the
/// list, else the last row; it is never after the old row and always in the
/// list, so the selected lobby is the new list's lobby at that row. An empty
/// list selects row 0.
pub proof fn lemma_refresh_keeps_selection(b: BrowserModel, es: Vec<BrowserEntry>)
    ensures
        ({
            let after = browser_step(b, BrowserMessage::LobbyList(Ok(es))).0;
            let n = es@.len();
            &&& after.entries == es@
            &&& n > 0 ==> after.selected < n
            &&& n > 0 ==> after.selected <= b.selected
            &&& b.selected < n ==> after.selected == b.selected
            &&& n > 0 && b.selected >= n ==> after.selected == n - 1
            &&& n == 0 ==> after.selected == 0
            &&& after.joined_lobby == b.joined_lobby
            &&& after.hosted_lobby == b.hosted_lobby
        }),
{
}

/// Joining and hosting: a joined lobby becomes the joined lobby and a failed
/// join changes no lobby; a created host lobby becomes both the hosted and
/// the joined lobby and is the one to advertise; neither touches the list
/// or the selection, and only a created host lobby asks for advertising.
pub proof fn lemma_join_and_host(b: BrowserModel, l: u64, e: String)
    ensures
        ({
            let (j, ja) = browser_step(b, BrowserMessage::JoinResult(Ok(l)));
            &&& j.joined_lobby == Some(l)
            &&& j.hosted_lobby == b.hosted_lobby
            &&& j.entries == b.entries && j.selected == b.selected
            &&& ja == BrowserAction::Nothing
        }),
        ({
            let (f, fa) = browser_step(b, BrowserMessage::JoinResult(Err(e)));
            &&& f.joined_lobby == b.joined_lobby && f.hosted_lobby == b.hosted_lobby
            &&& f.entries == b.entries && f.selected == b.selected
            &&& fa == BrowserAction::Nothing
        }),
        ({
            let (h, ha) = browser_step(b, BrowserMessage::HostLobbyCreated(Ok(l)));
            &&& h.hosted_lobby == Some(l) && h.joined_lobby == Some(l)
            &&& h.entries == b.entries && h.selected == b.selected
            &&& ha == BrowserAction::AdvertiseHostLobby(l)
        }),
        browser_step(b, BrowserMessage::HostLobbyCreated(Err(e))) == (b, BrowserAction::Nothing),
{
}

impl SteamBrowser {
    /// An empty browser, ready.
    pub fn new() -> (b: Self)
        ensures
            b@.entries.len() == 0,
            b@.selected == 0,
            !b@.refresh_in_flight,
            b@.status is Ready,
            b@.joined_lobby is None,
            b@.hosted_lobby is None,
    {
        SteamBrowser {
            entries: Vec::new(),
            selected: 0,
            refresh_in_flight: false,
            status: BrowserStatus::Ready,
            joined_lobby: None,
            hosted_lobby: None,
        }
    }

    /// Asks for a refresh: true (and a refresh is then in flight) unless one
    /// already is.
    pub fn request_browser_refresh(&mut self) -> (send: bool)
        ensures
            send == !old(self)@.refresh_in_flight,
            final(self)@ == (BrowserModel { refresh_in_flight: true, ..old(self)@ }),
    {
        if self.refresh_in_flight {
            return false;
        }
        self.refresh_in_flight = true;
        true
    }

    /// Moves the selection down one row, stopping at the last.
    pub fn select_next(&mut self)
        ensures
            final(self)@ == (BrowserModel {
                selected: if old(self)@.entries.len() == 0 {
                    old(self)@.selected
                } else if old(self)@.selected + 1 < old(self)@.entries.len() {
                    (old(self)@.selected + 1) as usize
                } else {
                    (old(self)@.entries.len() - 1) as usize
                },
                ..old(self)@
            }),
    {
        let n = self.entries.len();
        if n == 0 {
            return;
        }
        if self.selected < n - 1 {
            self.selected = self.selected + 1;
        } else {
            self.selected = n - 1;
        }
    }

    /// Moves the selection up one row, stopping at the first.
    pub fn select_previous(&mut self)
        ensures
            final(self)@ == (BrowserModel {
                selected: if old(self)@.entries.len() == 0 || old(self)@.selected == 0 {
                    old(self)@.selected
                } else {
                    (old(self)@.selected - 1) as usize
                },
                ..old(self)@
            }),
    {
        if self.entries.len() == 0 {
            return;
        }
        if self.selected > 0 {
            self.selected = self.selected - 1;
        }
    }

    /// The lobby of the selected row, to join.
    pub fn selected_lobby(&self) -> (r: Option<u64>)
        ensures
            r == if self@.selected < self@.entries.len() {
                Some(self@.entries[self@.selected as int].lobby)
            } else {
                None::<u64>
            },
    {
        if self.selected < self.entries.len() {
            Some(self.entries[self.selected].lobby)
        } else {
            None
        }
    }

    /// The row to mark as selected: none for an empty list.
    pub fn selected_index(&self) -> (r: Option<usize>)
        ensures
            r == if self@.entries.len() == 0 {
                None::<usize>
            } else {
                Some(self@.selected)
            },
    {
        if self.entries.len() == 0 {
            None
        } else {
            Some(self.selected)
        }
    }

    /// Takes in a finished request; see `browser_step`.
    pub fn process_browser_message(&mut self, msg: BrowserMessage) -> (a: BrowserAction)
        ensures
            (final(self)@, a) == browser_step(old(self)@, msg),
    {
        match msg {
            BrowserMessage::LobbyList(result) => {
                self.refresh_in_flight = false;
                match result {
                    Ok(entries) => {
                        let n = entries.len();
                        self.entries = entries;
                        if n == 0 {
                            self.selected = 0;
                        } else if self.selected >= n {
                            self.selected = n - 1;
                        }
                        self.status = BrowserStatus::Found(n);
                    },
                    Err(e) => {
                        self.status = BrowserStatus::RefreshFailed(e);
                    },
                }
                BrowserAction::Nothing
            },
            BrowserMessage::JoinResult(result) => {
                match result {
                    Ok(lobby) => {
                        self.joined_lobby = Some(lobby);
                        self.status = BrowserStatus::Joined(lobby);
                    },
                    Err(e) => {
                        self.status = BrowserStatus::JoinFailed(e);
                    },
                }
                BrowserAction::Nothing
            },
            BrowserMessage::HostLobbyCreated(result) => match result {
                Ok(lobby) => {
                    self.hosted_lobby = Some(lobby);
                    self.joined_lobby = Some(lobby);
                    BrowserAction::AdvertiseHostLobby(lobby)
                },
                Err(_) => BrowserAction::Nothing,
            },
        }
    }

    /// Takes in the finished requests in the order they came; the host
    /// lobbies to advertise, in order. See `browser_steps`.
    pub fn process_browser_messages(&mut self, msgs: Vec<BrowserMessage>) -> (advertise: Vec<u64>)
        ensures
            (final(self)@, advertise@) == browser_steps(old(self)@, msgs@),
    {
        let ghost all = msgs@;
        let mut advertise: Vec<u64> = Vec::new();
        let mut i: usize = 0;
        let n = msgs.len();
        let mut queue = msgs;
        proof {
            assert(all.take(0) =~= Seq::<BrowserMessage>::empty());
            assert(queue@ =~= all.skip(0));
        }
        while i < n
            invariant
                i <= n,
                n == all.len(),
                queue@ == all.skip(i as int),
                (self@, advertise@) == browser_steps(old(self)@, all.take(i as int)),
            decreases n - i,
        {
            let msg = queue.remove(0);
            proof {
                assert(queue@ =~= all.skip(i + 1));
                assert(msg == all[i as int]);
                assert(all.take(i + 1).drop_last() =~= all.take(i as int));
                assert(all.take(i + 1).last() == all[i as int]);
            }
            match self.process_browser_message(msg) {
                BrowserAction::AdvertiseHostLobby(l) => advertise.push(l),
                BrowserAction::Nothing => {},
            }
            i = i + 1;
        }
        proof {
            assert(all.take(n as int) =~= all);
        }
        advertise
    }
}

/// The peers to send to: the lobby's members other than oneself, in order.
pub open spec fn others(members: Seq<u64>, me: u64) -> Seq<u64>
    decreases members.len(),
{
    if members.len() == 0 {
        Seq::empty()
    } else if members.last() == me {
        others(members.drop_last(), me)
    } else {
        others(members.drop_last(), me).push(members.last())
    }
}

/// The peers to send to: the members of the joined lobby other than `me`.
pub fn targets_from_lobby_members(members: &[u64], me: u64) -> (r: Vec<u64>)
    ensures
        r@ == others(members@, me),
{
    let mut out: Vec<u64> = Vec::new();
    let mut i: usize = 0;
    while i < members.len()
        invariant
            i <= members@.len(),
            out@ == others(members@.take(i as int), me),
        decreases members@.len() - i,
    {
        proof {
            assert(members@.take(i + 1).drop_last() =~= members@.take(i as int));
        }
        if members[i] != me {
            out.push(members[i]);
        }
        i = i + 1;
    }
    assert(members@.take(members@.len() as int) =~= members@);
    out
}


// ---------------------------------------------------------------------------
// Text shown by the browser
// ---------------------------------------------------------------------------

/// The UTF-8 bytes of the status line.
pub open spec fn status_bytes(st: BrowserStatus) -> Seq<u8> {
    match st {
        BrowserStatus::Ready => encode_utf8("Steam browser ready. F6 refresh, Up/Down select, F7 join."@),
        BrowserStatus::Found(n) => encode_utf8("Found "@) + decimal(n as nat) + encode_utf8(
            " server(s). F7 join selected."@,
        ),
        BrowserStatus::RefreshFailed(e) => encode_utf8("Refresh failed: "@) + encode_utf8(e@),
        BrowserStatus::Joined(l) => encode_utf8("Joined lobby "@) + decimal(l as nat),
        BrowserStatus::JoinFailed(e) => encode_utf8("Join failed: "@) + encode_utf8(e@),
    }
}

impl BrowserStatus {
    /// The status line; see `status_bytes`.
    pub fn text(&self) -> (r: String)
        ensures
            encode_utf8(r@) == status_bytes(*self),
    {
        let mut out: Vec<u8> = Vec::new();
        proof {
            assert(valid_utf8(out@));
        }
        match self {
            BrowserStatus::Ready => {
                push_str(&mut out, "Steam browser ready. F6 refresh, Up/Down select, F7 join.");
            },
            BrowserStatus::Found(n) => {
                push_str(&mut out, "Found ");
                push_decimal(&mut out, *n as u64);
                push_str(&mut out, " server(s). F7 join selected.");
            },
            BrowserStatus::RefreshFailed(e) => {
                push_str(&mut out, "Refresh failed: ");
                push_str(&mut out, e.as_str());
            },
            BrowserStatus::Joined(l) => {
                push_str(&mut out, "Joined lobby ");
                push_decimal(&mut out, *l);
            },
            BrowserStatus::JoinFailed(e) => {
                push_str(&mut out, "Join failed: ");
                push_str(&mut out, e.as_str());
            },
        }
        proof {
            assert(out@ =~= status_bytes(*self));
        }
        text_of(out)
    }
}

/// The UTF-8 bytes of a row: a `>` marker on the selected row (a space on
/// the others), the lobby's name, its member count and limit in brackets,
/// and its owner.
pub open spec fn row_bytes(selected: bool, e: BrowserEntry) -> Seq<u8> {
    encode_utf8(if selected { ">"@ } else { " "@ }) + encode_utf8(" "@) + encode_utf8(e.name@)
        + encode_utf8(" ["@) + decimal(e.members as nat) + encode_utf8(" / "@) + decimal(
        e.max_members as nat,
    ) + encode_utf8("] owner:"@) + decimal(e.owner as nat)
}

/// The row of entry `e`; see `row_bytes`.
fn row_text(selected: bool, e: &BrowserEntry) -> (r: String)
    ensures
        encode_utf8(r@) == row_bytes(selected, *e),
{
    let mut out: Vec<u8> = Vec::new();
    proof {
        assert(valid_utf8(out@));
    }
    let marker = if selected {
        ">"
    } else {
        " "
    };
    push_str(&mut out, marker);
    push_str(&mut out, " ");
    push_str(&mut out, e.name.as_str());
    push_str(&mut out, " [");
    push_decimal(&mut out, e.members as u64);
    push_str(&mut out, " / ");
    push_decimal(&mut out, e.max_members as u64);
    push_str(&mut out, "] owner:");
    push_decimal(&mut out, e.owner);
    proof {
        assert(out@ =~= row_bytes(selected, *e));
    }
    text_of(out)
}

impl SteamBrowser {
    /// The rows shown for the lobby list, in order; the selected one is
    /// marked. See `row_bytes`.
    pub fn browser_rows(&self) -> (rows: Vec<String>)
        ensures
            rows@.len() == self@.entries.len(),
            forall|i: int|
                0 <= i < rows@.len() ==> encode_utf8(#[trigger] rows@[i]@) == row_bytes(
                    i == self@.selected,
                    self@.entries[i],
                ),
    {
        let mut rows: Vec<String> = Vec::new();
        let mut i: usize = 0;
        while i < self.entries.len()
            invariant
                i <= self.entries@.len(),
                rows@.len() == i,
                forall|k: int|
                    0 <= k < i ==> encode_utf8(#[trigger] rows@[k]@) == row_bytes(
                        k == self.selected,
                        self.entries@[k],
                    ),
            decreases self.entries@.len() - i,
        {
            let row = row_text(i == self.selected, &self.entries[i]);
            rows.push(row);
            i = i + 1;
        }
        rows
    }
}

/// The UTF-8 bytes of the server name a host gives its lobby.
pub open spec fn host_lobby_name_bytes(host: u64) -> Seq<u8> {
    encode_utf8("Learning Host "@) + decimal(host as nat)
}

/// The server name the host with Steam ID `host` gives its lobby; see
/// `host_lobby_name_bytes`.
pub fn host_lobby_name(host: u64) -> (r: String)
    ensures
        encode_utf8(r@) == host_lobby_name_bytes(host),
{
    let mut out: Vec<u8> = Vec::new();
    proof {
        assert(valid_utf8(out@));
    }
    push_str(&mut out, "Learning Host ");
    push_decimal(&mut out, host);
    proof {
        assert(out@ =~= host_lobby_name_bytes(host));
    }
    text_of(out)
}

} // verus!
