//! What the UI-facing session snapshot lists: one row for each player.
use crate::packet;
use crate::packet::{PlayerInfo, PlayerView};
use crate::{HOST_SENDER_ID, MAX_CLIENTS};
use vstd::prelude::*;
use vstd::string::StringExecFns;

verus! {

#[derive(Debug, Clone, Copy, PartialEq, Eq, Structural)]
pub enum Role {
    Host,
    Client,
}

impl Default for Role {
    fn default() -> (r: Self)
        ensures
            r == Role::Host,
    {
        Role::Host
    }
}

/// Who a row shows, and where its levels come from.
#[derive(Debug)]
pub struct Row {
    pub id: u16,
    pub name: String,
    /// The levels are those of our own input.
    pub local: bool,
    /// The stream that is measured for this row, if any.
    pub stream: Option<usize>,
}

/// A row as a mathematical value.
#[verifier::ext_equal]
pub struct RowView {
    pub id: u16,
    pub name: Seq<char>,
    pub local: bool,
    pub stream: Option<usize>,
}

impl View for Row {
    type V = RowView;

    open spec fn view(&self) -> RowView {
        RowView { id: self.id, name: self.name@, local: self.local, stream: self.stream }
    }
}

/// A list of rows as a mathematical value.
pub open spec fn rows_view(rows: Seq<Row>) -> Seq<RowView> {
    Seq::new(rows.len(), |i: int| rows[i]@)
}

/// A name with a mark that it is our own.
pub open spec fn own_name(name: Seq<char>) -> Seq<char> {
    name + " (you)"@
}

/// What a client is called that joined without a name being noted.
pub open spec fn default_name(slot: int) -> Seq<char> {
    if slot == 0 {
        "player 1"@
    } else if slot == 1 {
        "player 2"@
    } else if slot == 2 {
        "player 3"@
    } else {
        "player 4"@
    }
}

/// The rows of the clients in the first `n` slots: those whose slot is active.
pub open spec fn client_slot_rows(
    names: Seq<Option<Seq<char>>>,
    active: Seq<bool>,
    n: int,
) -> Seq<RowView>
    decreases n,
{
    if n <= 0 {
        Seq::empty()
    } else {
        let front = client_slot_rows(names, active, n - 1);
        if active[n - 1] {
            front.push(
                RowView {
                    id: n as u16,
                    name: match names[n - 1] {
                        Some(name) => name,
                        None => default_name(n - 1),
                    },
                    local: false,
                    stream: Some((n - 1) as usize),
                },
            )
        } else {
            front
        }
    }
}

/// The rows that the host shows: itself, then its active clients.
pub open spec fn host_rows(
    host_name: Seq<char>,
    names: Seq<Option<Seq<char>>>,
    active: Seq<bool>,
) -> Seq<RowView> {
    seq![
        RowView { id: HOST_SENDER_ID, name: own_name(host_name), local: true, stream: None },
    ] + client_slot_rows(names, active, MAX_CLIENTS as int)
}

/// The row that a client shows for a player. The host's row doubles as "the
/// mix": that is the one stream we actually receive and measure.
pub open spec fn player_row(p: PlayerView, own_id: u16) -> RowView {
    RowView {
        id: p.id,
        name: if p.id == own_id {
            own_name(p.name)
        } else {
            p.name
        },
        local: p.id == own_id,
        stream: if p.id == HOST_SENDER_ID {
            Some(0)
        } else {
            None
        },
    }
}

/// The rows that a client shows: everyone on the roster.
pub open spec fn client_rows(roster: Seq<PlayerView>, own_id: u16) -> Seq<RowView> {
    Seq::new(roster.len(), |i: int| player_row(roster[i], own_id))
}

fn mark_own(name: &String) -> (s: String)
    ensures
        s@ == own_name(name@),
{
    let mut s = name.clone();
    s.append(" (you)");
    s
}

fn fallback_name(slot: usize) -> (s: String)
    requires
        slot < MAX_CLIENTS,
    ensures
        s@ == default_name(slot as int),
{
    match slot {
        0 => "player 1".to_owned(),
        1 => "player 2".to_owned(),
        2 => "player 3".to_owned(),
        _ => "player 4".to_owned(),
    }
}

/// A client's name as a mathematical value.
pub open spec fn name_view(n: Option<String>) -> Option<Seq<char>> {
    match n {
        None => None,
        Some(n) => Some(n@),
    }
}

/// The clients' names as a mathematical value.
pub open spec fn names_view(names: Seq<Option<String>>) -> Seq<Option<Seq<char>>> {
    Seq::new(names.len(), |i: int| name_view(names[i]))
}

/// Lists the rows that the host shows.
pub fn list_host_rows(
    host_name: &String,
    names: &[Option<String>; MAX_CLIENTS],
    active: &[bool; MAX_CLIENTS],
) -> (rows: Vec<Row>)
    ensures
        rows_view(rows@) == host_rows(host_name@, names_view(names@), active@),
{
    let mut rows: Vec<Row> = Vec::new();
    let ghost own = RowView {
        id: HOST_SENDER_ID,
        name: own_name(host_name@),
        local: true,
        stream: None,
    };
    let ghost nv = names_view(names@);
    rows.push(Row { id: HOST_SENDER_ID, name: mark_own(host_name), local: true, stream: None });
    let mut i: usize = 0;
    assert(rows_view(rows@) =~= seq![own] + client_slot_rows(nv, active@, 0));
    while i < MAX_CLIENTS
        invariant
            i <= MAX_CLIENTS,
            nv == names_view(names@),
            rows_view(rows@) == seq![own] + client_slot_rows(nv, active@, i as int),
        decreases MAX_CLIENTS - i,
    {
        if active[i] {
            let name = match &names[i] {
                Some(name) => name.clone(),
                None => fallback_name(i),
            };
            let row = Row { id: (i + 1) as u16, name, local: false, stream: Some(i) };
            proof {
                assert(rows_view(rows@.push(row)) =~= rows_view(rows@).push(row@));
                let front = client_slot_rows(nv, active@, i as int);
                assert((seq![own] + front).push(row@) =~= seq![own] + front.push(row@));
            }
            rows.push(row);
        }
        i = i + 1;
    }
    rows
}

/// Lists the rows that a client shows.
pub fn list_client_rows(roster: &Vec<PlayerInfo>, own_id: u16) -> (rows: Vec<Row>)
    ensures
        rows_view(rows@) == client_rows(packet::players_view(roster@), own_id),
{
    let mut rows: Vec<Row> = Vec::new();
    let ghost pv = packet::players_view(roster@);
    let mut i: usize = 0;
    while i < roster.len()
        invariant
            i <= roster@.len(),
            pv == packet::players_view(roster@),
            rows@.len() == i,
            forall|j: int| 0 <= j < i ==> (#[trigger] rows@[j])@ == player_row(pv[j], own_id),
        decreases roster@.len() - i,
    {
        let p = &roster[i];
        let is_me = p.id == own_id;
        rows.push(
            Row {
                id: p.id,
                name: if is_me {
                    mark_own(&p.name)
                } else {
                    p.name.clone()
                },
                local: is_me,
                stream: if p.id == HOST_SENDER_ID {
                    Some(0)
                } else {
                    None
                },
            },
        );
        i = i + 1;
    }
    assert(rows_view(rows@) =~= client_rows(pv, own_id));
    rows
}

/// What the rows of the clients in the first `n` slots hold.
proof fn lemma_client_slot_rows(names: Seq<Option<Seq<char>>>, active: Seq<bool>, n: int)
    requires
        0 <= n <= MAX_CLIENTS,
        names.len() == MAX_CLIENTS,
        active.len() == MAX_CLIENTS,
    ensures
        ({
            let rows = client_slot_rows(names, active, n);
            &&& forall|k: int|
                0 <= k < rows.len() ==> {
                    let r = #[trigger] rows[k];
                    &&& 1 <= r.id <= n
                    &&& active[r.id - 1]
                    &&& !r.local
                    &&& r.stream == Some((r.id - 1) as usize)
                    &&& names[r.id - 1] matches Some(name) ==> r.name == name
                    &&& names[r.id - 1] is None ==> r.name == default_name(r.id - 1)
                }
            &&& forall|k: int, l: int|
                0 <= k < l < rows.len() ==> (#[trigger] rows[k]).id < (#[trigger] rows[l]).id
            &&& forall|i: int|
                0 <= i < n && #[trigger] active[i] ==> exists|k: int|
                    0 <= k < rows.len() && (#[trigger] rows[k]).id == i + 1
        }),
    decreases n,
{
    if n > 0 {
        lemma_client_slot_rows(names, active, n - 1);
        let front = client_slot_rows(names, active, n - 1);
        let rows = client_slot_rows(names, active, n);
        assert forall|i: int| 0 <= i < n && #[trigger] active[i] implies exists|k: int|
            0 <= k < rows.len() && (#[trigger] rows[k]).id == i + 1 by {
            if i == n - 1 {
                assert(rows[front.len() as int].id == i + 1);
            } else {
                let k = choose|k: int| 0 <= k < front.len() && (#[trigger] front[k]).id == i + 1;
                assert(rows[k] == front[k]);
            }
        }
    }
}

/// The host shows itself first, marked as itself and with its own levels, and
/// then, in the order of their ids, one row for each active slot and no other:
/// under the name that was noted, and with the levels of that slot's stream.
pub proof fn law_host_shows_its_active_clients(
    host_name: Seq<char>,
    names: Seq<Option<Seq<char>>>,
    active: Seq<bool>,
)
    requires
        names.len() == MAX_CLIENTS,
        active.len() == MAX_CLIENTS,
    ensures
        ({
            let rows = host_rows(host_name, names, active);
            &&& rows.len() > 0
            &&& rows[0].id == 0 && rows[0].local && rows[0].stream is None && rows[0].name
                == host_name + " (you)"@
            &&& forall|k: int|
                1 <= k < rows.len() ==> {
                    let r = #[trigger] rows[k];
                    &&& 1 <= r.id <= MAX_CLIENTS
                    &&& active[r.id - 1]
                    &&& !r.local
                    &&& r.stream == Some((r.id - 1) as usize)
                    &&& names[r.id - 1] matches Some(name) ==> r.name == name
                    &&& names[r.id - 1] is None ==> r.name == default_name(r.id - 1)
                }
            &&& forall|k: int, l: int|
                0 <= k < l < rows.len() ==> (#[trigger] rows[k]).id < (#[trigger] rows[l]).id
            &&& forall|i: int|
                0 <= i < MAX_CLIENTS && #[trigger] active[i] ==> exists|k: int|
                    1 <= k < rows.len() && (#[trigger] rows[k]).id == i + 1
        }),
{
    let front = client_slot_rows(names, active, MAX_CLIENTS as int);
    let rows = host_rows(host_name, names, active);
    lemma_client_slot_rows(names, active, MAX_CLIENTS as int);
    assert forall|k: int| 1 <= k < rows.len() implies #[trigger] rows[k] == front[k - 1] by {}
    assert forall|k: int, l: int| 0 <= k < l < rows.len() implies (#[trigger] rows[k]).id < (
    #[trigger] rows[l]).id by {
        assert(rows[l] == front[l - 1]);
        if k > 0 {
            assert(rows[k] == front[k - 1]);
        }
    }
    assert forall|i: int| 0 <= i < MAX_CLIENTS && #[trigger] active[i] implies exists|k: int|
        1 <= k < rows.len() && (#[trigger] rows[k]).id == i + 1 by {
        let k = choose|k: int| 0 <= k < front.len() && (#[trigger] front[k]).id == i + 1;
        assert(rows[k + 1] == front[k]);
    }
}

/// A client whose name was not noted is called by its number.
pub proof fn law_unnamed_clients_are_numbered(slot: int)
    requires
        0 <= slot < MAX_CLIENTS,
    ensures
        default_name(slot).len() == 8,
        default_name(slot).take(7) == "player "@,
        default_name(slot)[7] as int == '1' as int + slot,
{
    reveal_strlit("player ");
    reveal_strlit("player 1");
    reveal_strlit("player 2");
    reveal_strlit("player 3");
    reveal_strlit("player 4");
    assert(default_name(slot).take(7) =~= "player "@);
}

/// A client shows everyone on the roster, in its order: itself marked as itself
/// and with its own levels, the host with the levels of the one stream there
/// is, and the others by name alone.
pub proof fn law_client_shows_the_roster(roster: Seq<PlayerView>, own_id: u16, i: int)
    requires
        0 <= i < roster.len(),
    ensures
        ({
            let rows = client_rows(roster, own_id);
            &&& rows.len() == roster.len()
            &&& rows[i].id == roster[i].id
            &&& rows[i].local <==> roster[i].id == own_id
            &&& roster[i].id == own_id ==> rows[i].name == roster[i].name + " (you)"@
            &&& roster[i].id != own_id ==> rows[i].name == roster[i].name
            &&& roster[i].id == 0 ==> rows[i].stream == Some(0usize)
            &&& roster[i].id != 0 ==> rows[i].stream is None
        }),
{
}

} // verus!
