//! Terminal status display + keyboard control, apart from the terminal itself.
//!
//! Keys (host): 0-4 select player, +/- adjust their gain, m mute, s solo,
//! q quit.
//! Keys (client): +/- master volume, [/] monitor volume, q quit.
use crate::stats::Role;
use crate::MAX_CLIENTS;
use vstd::prelude::*;
use vstd::string::{StrSliceExecFns, StringExecFns};

verus! {

/// Columns of a level meter.
pub const METER_WIDTH: usize = 20;

/// What a key press asks for.
#[derive(Debug, Clone, Copy, PartialEq, Eq, Structural)]
pub enum UiAction {
    Quit,
    /// Host: gain, mute and solo keys now act on this player.
    Select { player: usize },
    /// Host: a player's gain goes up (or down) a step.
    Gain { player: usize, up: bool },
    ToggleMute { player: usize },
    ToggleSolo { player: usize },
    /// Client: the master volume goes up (or down) a step.
    Master { up: bool },
    /// Client: the monitor volume goes up (or down) a step.
    Monitor { up: bool },
    Ignore,
}

/// Whether a player can be selected: the host, or a client whose slot is
/// active, so that keys cannot land on an empty slot.
pub open spec fn selectable(player: int, active: Seq<bool>) -> bool {
    player == 0 || (1 <= player <= MAX_CLIENTS && active[player - 1])
}

/// The player that a digit stands for.
pub open spec fn player_of_key(key: char) -> Option<int> {
    if '0' <= key <= '4' {
        Some(key as int - '0' as int)
    } else {
        None
    }
}

/// What a key press asks for, on the host.
pub open spec fn host_key(key: char, selected: usize, active: Seq<bool>) -> UiAction {
    match player_of_key(key) {
        Some(player) => {
            if selectable(player, active) {
                UiAction::Select { player: player as usize }
            } else {
                UiAction::Ignore
            }
        },
        None => {
            if key == '+' || key == '=' {
                UiAction::Gain { player: selected, up: true }
            } else if key == '-' {
                UiAction::Gain { player: selected, up: false }
            } else if key == 'm' {
                UiAction::ToggleMute { player: selected }
            } else if key == 's' {
                UiAction::ToggleSolo { player: selected }
            } else {
                UiAction::Ignore
            }
        },
    }
}

/// What a key press asks for, on a client.
pub open spec fn client_key(key: char) -> UiAction {
    if key == '+' || key == '=' {
        UiAction::Master { up: true }
    } else if key == '-' {
        UiAction::Master { up: false }
    } else if key == ']' {
        UiAction::Monitor { up: true }
    } else if key == '[' {
        UiAction::Monitor { up: false }
    } else {
        UiAction::Ignore
    }
}

/// What a key press asks for: q and ctrl-c always quit.
pub open spec fn key_action(
    role: Role,
    key: char,
    ctrl: bool,
    selected: usize,
    active: Seq<bool>,
) -> UiAction {
    if key == 'q' || (key == 'c' && ctrl) {
        UiAction::Quit
    } else {
        match role {
            Role::Host => host_key(key, selected, active),
            Role::Client => client_key(key),
        }
    }
}

/// Decides what a key press asks for.
pub fn on_key(
    role: Role,
    key: char,
    ctrl: bool,
    selected: usize,
    active: &[bool; MAX_CLIENTS],
) -> (action: UiAction)
    ensures
        action == key_action(role, key, ctrl, selected, active@),
{
    if key == 'q' || (key == 'c' && ctrl) {
        return UiAction::Quit;
    }
    match role {
        Role::Host => {
            if '0' <= key && key <= '4' {
                let player: usize = (key as u32 - '0' as u32) as usize;
                if player == 0 || active[player - 1] {
                    UiAction::Select { player }
                } else {
                    UiAction::Ignore
                }
            } else if key == '+' || key == '=' {
                UiAction::Gain { player: selected, up: true }
            } else if key == '-' {
                UiAction::Gain { player: selected, up: false }
            } else if key == 'm' {
                UiAction::ToggleMute { player: selected }
            } else if key == 's' {
                UiAction::ToggleSolo { player: selected }
            } else {
                UiAction::Ignore
            }
        },
        Role::Client => {
            if key == '+' || key == '=' {
                UiAction::Master { up: true }
            } else if key == '-' {
                UiAction::Master { up: false }
            } else if key == ']' {
                UiAction::Monitor { up: true }
            } else if key == '[' {
                UiAction::Monitor { up: false }
            } else {
                UiAction::Ignore
            }
        },
    }
}

/// The selection, or the host's row if nobody is there any more.
pub open spec fn settled_on(selected: usize, active: Seq<bool>) -> usize {
    if selectable(selected as int, active) {
        selected
    } else {
        0
    }
}

/// A settled selection is always someone who is there, and stays where it was
/// if that is; it does not move when it is settled again.
pub proof fn law_selection_is_someone(selected: usize, active: Seq<bool>)
    requires
        active.len() == MAX_CLIENTS,
    ensures
        ({
            let s = settled_on(selected, active);
            &&& s == 0 || s <= MAX_CLIENTS && active[s - 1]
            &&& selected == 0 || selected <= MAX_CLIENTS && active[selected - 1] ==> s == selected
            &&& selected != 0 && (selected > MAX_CLIENTS || !active[selected - 1]) ==> s == 0
            &&& settled_on(s, active) == s
        }),
{
}

/// If the selected client has since left, falls back to the host row so the
/// selector never points at an empty slot.
pub fn settle_selection(selected: usize, active: &[bool; MAX_CLIENTS]) -> (s: usize)
    ensures
        s == settled_on(selected, active@),
        s == if selectable(selected as int, active@) {
            selected
        } else {
            0
        },
{
    if selected != 0 && !(selected <= MAX_CLIENTS && active[selected - 1]) {
        0
    } else {
        selected
    }
}

/// Keys only ever select or change a player who is there, provided that the
/// selection was settled before.
pub proof fn law_keys_land_on_players(key: char, ctrl: bool, selected: usize, active: Seq<bool>)
    requires
        selectable(selected as int, active),
    ensures
        match key_action(Role::Host, key, ctrl, selected, active) {
            UiAction::Select { player } => selectable(player as int, active),
            UiAction::Gain { player, .. } => selectable(player as int, active),
            UiAction::ToggleMute { player } => selectable(player as int, active),
            UiAction::ToggleSolo { player } => selectable(player as int, active),
            _ => true,
        },
{
}

/// The start of a text, marked with an ellipsis where it is cut.
pub open spec fn shortened(s: Seq<char>, n: nat) -> Seq<char> {
    if s.len() <= n {
        s
    } else {
        s.take(n - 1) + "\u{2026}"@
    }
}

/// Cuts a text to `n` characters.
pub fn truncate(s: &str, n: usize) -> (t: String)
    requires
        n > 0 || s@.len() == 0,
    ensures
        t@ == shortened(s@, n as nat),
        t@.len() <= n,
{
    proof {
        reveal_strlit("\u{2026}");
    }
    if s.unicode_len() <= n {
        s.to_owned()
    } else {
        let head = s.substring_char(0, n - 1);
        assert(head@ =~= s@.take(n - 1));
        head.to_owned().concat("\u{2026}")
    }
}

/// The marks of a player: muted, and soloed. A player silenced by someone
/// else's solo shows a small s so it's clear why they've gone quiet.
pub open spec fn marks_of(player: int, muted: Seq<bool>, soloed: Seq<bool>) -> (char, char) {
    (
        if 0 <= player < muted.len() && muted[player] {
            'M'
        } else {
            '\u{b7}'
        },
        if 0 <= player < soloed.len() && soloed[player] {
            'S'
        } else if exists|i: int| 0 <= i < soloed.len() && #[trigger] soloed[i] {
            's'
        } else {
            '\u{b7}'
        },
    )
}

/// Mute/solo markers of a player, host only.
pub fn marks(player: usize, muted: &[bool], soloed: &[bool]) -> (m: (char, char))
    ensures
        m == marks_of(player as int, muted@, soloed@),
{
    let mute = if player < muted.len() && muted[player] {
        'M'
    } else {
        '\u{b7}'
    };
    if player < soloed.len() && soloed[player] {
        return (mute, 'S');
    }
    let mut i: usize = 0;
    while i < soloed.len()
        invariant
            i <= soloed@.len(),
            mute == marks_of(player as int, muted@, soloed@).0,
            !(player < soloed@.len() && soloed@[player as int]),
            forall|j: int| 0 <= j < i ==> !#[trigger] soloed@[j],
        decreases soloed@.len() - i,
    {
        if soloed[i] {
            assert(soloed@[i as int]);
            return (mute, 's');
        }
        i = i + 1;
    }
    (mute, '\u{b7}')
}

/// A level meter: full blocks up to the average, shaded ones up to the peak.
pub open spec fn meter_view(average: int, peak: int) -> Seq<char> {
    Seq::new(
        METER_WIDTH as nat,
        |i: int|
            if i < average {
                '\u{2588}'
            } else if i < peak {
                '\u{2592}'
            } else {
                '\u{b7}'
            },
    )
}

/// Draws a level meter of so many columns.
pub fn meter_columns(average: usize, peak: usize) -> (columns: Vec<char>)
    ensures
        columns@ == meter_view(average as int, peak as int),
{
    let mut columns: Vec<char> = Vec::with_capacity(METER_WIDTH);
    let mut i: usize = 0;
    while i < METER_WIDTH
        invariant
            i <= METER_WIDTH,
            columns@ =~= meter_view(average as int, peak as int).take(i as int),
        decreases METER_WIDTH - i,
    {
        let c: char = if i < average {
            '\u{2588}'
        } else if i < peak {
            '\u{2592}'
        } else {
            '\u{b7}'
        };
        columns.push(c);
        i = i + 1;
    }
    assert(columns@ =~= meter_view(average as int, peak as int));
    columns
}

/// A digit selects the player with that number, if there is one: 0 always is.
pub proof fn law_digits_select_players(digit: char, selected: usize, active: Seq<bool>)
    requires
        active.len() == MAX_CLIENTS,
        '0' <= digit <= '9',
    ensures
        ({
            let player = digit as int - '0' as int;
            let action = key_action(Role::Host, digit, false, selected, active);
            if player == 0 || player <= MAX_CLIENTS && active[player - 1] {
                action == (UiAction::Select { player: player as usize })
            } else {
                action == UiAction::Ignore
            }
        }),
{
}

/// The other keys of the host change the selected player; each of them asks for
/// one thing, and keys that are not listed for nothing.
pub proof fn law_keys_change_the_selected_player(key: char, selected: usize, active: Seq<bool>)
    requires
        !('0' <= key <= '9'),
        key != 'q',
    ensures
        ({
            let action = key_action(Role::Host, key, false, selected, active);
            &&& key == '+' || key == '=' <==> action == (UiAction::Gain {
                player: selected,
                up: true,
            })
            &&& key == '-' <==> action == (UiAction::Gain { player: selected, up: false })
            &&& key == 'm' <==> action == (UiAction::ToggleMute { player: selected })
            &&& key == 's' <==> action == (UiAction::ToggleSolo { player: selected })
            &&& key != '+' && key != '=' && key != '-' && key != 'm' && key != 's' ==> action
                == UiAction::Ignore
        }),
{
}

/// The keys of a client change its two volumes, and nothing else.
pub proof fn law_client_keys_change_its_volumes(key: char, selected: usize, active: Seq<bool>)
    requires
        key != 'q',
    ensures
        ({
            let action = key_action(Role::Client, key, false, selected, active);
            &&& key == '+' || key == '=' <==> action == (UiAction::Master { up: true })
            &&& key == '-' <==> action == (UiAction::Master { up: false })
            &&& key == ']' <==> action == (UiAction::Monitor { up: true })
            &&& key == '[' <==> action == (UiAction::Monitor { up: false })
            &&& key != '+' && key != '=' && key != '-' && key != ']' && key != '[' ==> action
                == UiAction::Ignore
        }),
{
}

/// On both sides q quits and so does c with the control key, and no other key
/// does. With the control key held, any other key means what it means without.
pub proof fn law_quit_keys(
    role: Role,
    key: char,
    ctrl: bool,
    selected: usize,
    active: Seq<bool>,
)
    ensures
        key_action(role, key, ctrl, selected, active) == UiAction::Quit <==> key == 'q' || key
            == 'c' && ctrl,
        key != 'c' ==> key_action(role, key, true, selected, active) == key_action(
            role,
            key,
            false,
            selected,
            active,
        ),
{
}

/// A player can be selected exactly if it is the host or an active client.
pub proof fn law_only_players_are_selectable(player: int, active: Seq<bool>)
    requires
        active.len() == MAX_CLIENTS,
    ensures
        selectable(0, active),
        1 <= player <= MAX_CLIENTS ==> (selectable(player, active) <==> active[player - 1]),
        player < 0 || player > MAX_CLIENTS ==> !selectable(player, active),
{
}

/// A text that fits stays as it is. One that does not is cut to just the length
/// asked for: its own start, and an ellipsis as the last character.
pub proof fn law_long_texts_are_cut(s: Seq<char>, n: nat)
    requires
        n > 0,
    ensures
        s.len() <= n ==> shortened(s, n) == s,
        s.len() > n ==> {
            let t = shortened(s, n);
            &&& t.len() == n
            &&& t[n - 1] == '\u{2026}'
            &&& forall|i: int| 0 <= i < n - 1 ==> #[trigger] t[i] == s[i]
        },
{
    reveal_strlit("\u{2026}");
}

/// A big M shows just those who are muted, a big S just those who are soloed,
/// and a small s just those who are not while someone else is.
pub proof fn law_marks_show_mute_and_solo(
    player: int,
    other: int,
    muted: Seq<bool>,
    soloed: Seq<bool>,
)
    requires
        0 <= player < muted.len(),
        muted.len() == soloed.len(),
        0 <= other < soloed.len(),
    ensures
        marks_of(player, muted, soloed).0 == 'M' <==> muted[player],
        marks_of(player, muted, soloed).1 == 'S' <==> soloed[player],
        soloed[other] && !soloed[player] ==> marks_of(player, muted, soloed).1 == 's',
        (forall|i: int| 0 <= i < soloed.len() ==> !#[trigger] soloed[i]) ==> marks_of(
            player,
            muted,
            soloed,
        ).1 == '\u{b7}',
        !muted[player] ==> marks_of(player, muted, soloed).0 == '\u{b7}',
{
}

/// A meter is always as wide; its columns are full up to the average, shaded
/// from there up to the peak, and empty from the higher of the two on.
pub proof fn law_meter_shows_average_and_peak(average: int, peak: int, i: int)
    requires
        0 <= i < 20,
    ensures
        meter_view(average, peak).len() == 20,
        meter_view(average, peak)[i] == '\u{2588}' <==> i < average,
        meter_view(average, peak)[i] == '\u{2592}' <==> average <= i < peak,
        meter_view(average, peak)[i] == '\u{b7}' <==> average <= i && peak <= i,
{
}

} // verus!
