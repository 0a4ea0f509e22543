//! The round's rules: which cart a missile strikes, who scores, who wins,
//! when a round restarts, and what each menu button does.

use vstd::prelude::*;
use crate::nav::AppState;
use crate::settings::SettingRow;

verus! {

/// The first of `targets`, counting from `t`, that a missile fired by
/// `owner` touches, as `touching` records, and that is not `owner`'s own.
pub open spec fn first_struck(owner: usize, targets: Seq<usize>, touching: Seq<bool>, t: int) -> Option<usize>
    decreases targets.len() - t,
{
    if t >= targets.len() || t < 0 {
        None
    } else if targets[t] != owner && touching[t] {
        Some(t as usize)
    } else {
        first_struck(owner, targets, touching, t + 1)
    }
}

proof fn lemma_first_struck_is_a_hit(owner: usize, targets: Seq<usize>, touching: Seq<bool>, t: int)
    requires
        0 <= t,
        targets.len() <= usize::MAX,
    ensures
        first_struck(owner, targets, touching, t) is Some ==> {
            let k = first_struck(owner, targets, touching, t)->0 as int;
            t <= k < targets.len() && targets[k] != owner && touching[k]
        },
    decreases targets.len() - t,
{
    if t < targets.len() && !(targets[t] != owner && touching[t]) {
        lemma_first_struck_is_a_hit(owner, targets, touching, t + 1);
    }
}

/// Which cart each missile strikes: the first cart, in the order given,
/// that it touches and that is not its owner's. A missile strikes at most
/// one cart, and never its owner's.
pub fn resolve_contacts(owners: &Vec<usize>, targets: &Vec<usize>, touching: &Vec<Vec<bool>>) -> (struck: Vec<Option<usize>>)
    requires
        touching.len() == owners.len(),
        forall|p: int| 0 <= p < owners.len() ==> #[trigger] touching[p].len() == targets.len(),
    ensures
        struck.len() == owners.len(),
        forall|p: int|
            0 <= p < owners.len() ==> #[trigger] struck@[p] == first_struck(owners@[p], targets@, touching[p]@, 0),
        forall|p: int|
            0 <= p < owners.len() && #[trigger] struck@[p] is Some ==> {
                let t = struck@[p]->0 as int;
                &&& 0 <= t < targets.len()
                &&& targets@[t] != owners@[p]
                &&& touching[p]@[t]
            },
{
    let mut struck: Vec<Option<usize>> = Vec::new();
    let target_count = targets.len();
    proof {
        assert forall|p: int, t: int|
            0 <= p < owners.len() && 0 <= t && #[trigger] first_struck(owners@[p], targets@, touching[p]@, t) is Some implies {
                let k = first_struck(owners@[p], targets@, touching[p]@, t)->0 as int;
                t <= k < targets.len() && targets@[k] != owners@[p] && touching[p]@[k]
            } by {
            lemma_first_struck_is_a_hit(owners@[p], targets@, touching[p]@, t);
        }
    }
    let mut p: usize = 0;
    while p < owners.len()
        invariant
            p <= owners.len(),
            target_count == targets.len(),
            touching.len() == owners.len(),
            forall|q: int| 0 <= q < owners.len() ==> #[trigger] touching[q].len() == targets.len(),
            struck.len() == p,
            forall|q: int|
                0 <= q < p ==> #[trigger] struck@[q] == first_struck(owners@[q], targets@, touching[q]@, 0),
        decreases owners.len() - p,
    {
        let owner = owners[p];
        let row = &touching[p];
        assert(touching[p as int].len() == targets.len());
        let mut hit: Option<usize> = None;
        let mut t: usize = 0;
        while t < target_count
            invariant_except_break
                hit is None,
                first_struck(owner, targets@, row@, 0) == first_struck(owner, targets@, row@, t as int),
            invariant
                t <= targets.len(),
                target_count == targets.len(),
                row@.len() == targets.len(),
            ensures
                hit == first_struck(owner, targets@, row@, 0),
            decreases targets.len() - t,
        {
            if targets[t] != owner && row[t] {
                hit = Some(t);
                break;
            }
            t += 1;
        }
        struck.push(hit);
        p += 1;
    }
    struck
}

/// How many of `hits` were scored by `id`.
pub open spec fn hits_by(hits: Seq<(usize, usize)>, id: usize) -> nat
    decreases hits.len(),
{
    if hits.len() == 0 {
        0
    } else {
        hits_by(hits.drop_last(), id) + if hits.last().0 == id {
            1nat
        } else {
            0nat
        }
    }
}

/// Credit each rear hit, given as (owner, target), to its owner's score.
pub fn tally_hits(ids: &Vec<usize>, scores: &mut Vec<u32>, hits: &Vec<(usize, usize)>)
    requires
        old(scores).len() == ids.len(),
        forall|j: int| 0 <= j < ids.len() ==> old(scores)@[j] + hits_by(hits@, #[trigger] ids@[j]) <= u32::MAX,
    ensures
        final(scores).len() == ids.len(),
        forall|j: int|
            0 <= j < ids.len() ==> #[trigger] final(scores)@[j] == old(scores)@[j] + hits_by(hits@, ids@[j]),
{
    let mut h: usize = 0;
    while h < hits.len()
        invariant
            h <= hits.len(),
            scores.len() == ids.len(),
            forall|j: int| 0 <= j < ids.len() ==> old(scores)@[j] + hits_by(hits@, #[trigger] ids@[j]) <= u32::MAX,
            forall|j: int|
                0 <= j < ids.len() ==> #[trigger] scores@[j] == old(scores)@[j] + hits_by(hits@.take(h as int), ids@[j]),
        decreases hits.len() - h,
    {
        let owner = hits[h].0;
        proof {
            assert(hits@.take(h + 1).drop_last() =~= hits@.take(h as int));
            assert forall|j: int| 0 <= j < ids.len() implies hits_by(hits@.take(h + 1), ids@[j]) <= hits_by(hits@, ids@[j]) by {
                lemma_hits_by_prefix(hits@, ids@[j], h + 1);
            }
            assert forall|j: int| 0 <= j < ids.len() implies #[trigger] hits_by(hits@.take(h + 1), ids@[j])
                == hits_by(hits@.take(h as int), ids@[j]) + if owner == ids@[j] { 1nat } else { 0nat } by {
                assert(hits@.take(h + 1).last() == hits@[h as int]);
            }
        }
        let mut j: usize = 0;
        while j < ids.len()
            invariant
                h < hits.len(),
                owner == hits@[h as int].0,
                j <= ids.len(),
                scores.len() == ids.len(),
                forall|k: int| 0 <= k < ids.len() ==> old(scores)@[k] + hits_by(hits@, #[trigger] ids@[k]) <= u32::MAX,
                forall|k: int| 0 <= k < ids.len() ==> hits_by(hits@.take(h + 1), ids@[k]) <= hits_by(hits@, #[trigger] ids@[k]),
                forall|k: int| 0 <= k < ids.len() ==> #[trigger] hits_by(hits@.take(h + 1), ids@[k])
                    == hits_by(hits@.take(h as int), ids@[k]) + if owner == ids@[k] { 1nat } else { 0nat },
                forall|k: int|
                    0 <= k < j ==> #[trigger] scores@[k] == old(scores)@[k] + hits_by(hits@.take(h + 1), ids@[k]),
                forall|k: int|
                    j <= k < ids.len() ==> #[trigger] scores@[k] == old(scores)@[k] + hits_by(hits@.take(h as int), ids@[k]),
            decreases ids.len() - j,
        {
            if ids[j] == owner {
                let score = scores[j];
                scores.set(j, score + 1);
            }
            j += 1;
        }
        h += 1;
    }
    assert(hits@.take(hits.len() as int) =~= hits@);
}

proof fn lemma_hits_by_prefix(hits: Seq<(usize, usize)>, id: usize, n: int)
    requires
        0 <= n <= hits.len(),
    ensures
        hits_by(hits.take(n), id) <= hits_by(hits, id),
    decreases hits.len() - n,
{
    if n < hits.len() {
        lemma_hits_by_prefix(hits, id, n + 1);
        assert(hits.take(n + 1).drop_last() =~= hits.take(n));
    } else {
        assert(hits.take(n) =~= hits);
    }
}

/// The round's winner, numbered from one: the player with the highest
/// score, the one with the highest number among those tied, or player one
/// when nobody played. The order `scores` come in does not matter.
pub fn round_winner(scores: &Vec<(usize, u32)>) -> (winner: usize)
    requires
        forall|i: int| 0 <= i < scores.len() ==> #[trigger] scores@[i].0 < usize::MAX,
    ensures
        scores.len() == 0 ==> winner == 1,
        scores.len() > 0 ==> exists|k: int|
            #![trigger scores@[k]]
            0 <= k < scores.len() && winner == scores@[k].0 + 1
            && (forall|i: int| 0 <= i < scores.len() ==> #[trigger] scores@[i].1 <= scores@[k].1)
            && (forall|i: int|
                0 <= i < scores.len() && #[trigger] scores@[i].1 == scores@[k].1 ==> scores@[i].0 <= scores@[k].0),
{
    if scores.len() == 0 {
        return 1;
    }
    let mut best: usize = 0;
    let mut i: usize = 1;
    while i < scores.len()
        invariant
            0 < i <= scores.len(),
            best < i,
            forall|j: int| 0 <= j < i ==> #[trigger] scores@[j].1 <= scores@[best as int].1,
            forall|j: int|
                0 <= j < i && #[trigger] scores@[j].1 == scores@[best as int].1 ==> scores@[j].0 <= scores@[best as int].0,
        decreases scores.len() - i,
    {
        let (id, score) = scores[i];
        if score > scores[best].1 || (score == scores[best].1 && id >= scores[best].0) {
            best = i;
        }
        i += 1;
    }
    assert(scores@[best as int].0 < usize::MAX);
    scores[best].0 + 1
}

/// The cart a bot hunts: the next one round by number.
pub fn bot_target(id: usize, carts: usize) -> (target: usize)
    requires
        carts > 0,
        id < usize::MAX,
    ensures
        target == (id + 1) % (carts as int),
{
    (id + 1) % carts
}

/// A finished round restarts on R or a pad's Start.
pub fn restart_requested(finished: bool, restart_key: bool, start_button: bool) -> (restart: bool)
    ensures
        restart == (finished && (restart_key || start_button)),
{
    finished && (restart_key || start_button)
}

/// A steering axis from its two keys: `-1`, `0`, or `1`.
pub fn axis(negative: bool, positive: bool) -> (value: i8)
    ensures
        value == (if positive { 1int } else { 0int }) - (if negative { 1int } else { 0int }),
{
    let negative: i8 = if negative {
        1
    } else {
        0
    };
    let positive: i8 = if positive {
        1
    } else {
        0
    };
    positive - negative
}

/// What a menu button does.
#[derive(Clone, Copy, Debug, PartialEq, Eq, Structural)]
pub enum MenuAction {
    Start,
    Launch,
    Back,
    Exit,
    Resume,
    ReturnToMenu,
    OpenSettings,
    CloseSettings,
    Setting(SettingRow),
}

/// Where the settings screen returns to when it closes.
#[derive(Clone, Copy, Debug, PartialEq, Eq, Structural)]
pub enum SettingsOrigin {
    MainMenu,
    Pause,
}

/// The effect of pressing a menu button.
#[derive(Clone, Copy, Debug, PartialEq, Eq, Structural)]
pub enum MenuOutcome {
    /// Move to another screen.
    Enter(AppState),
    /// Nothing happens.
    Stay,
    /// Quit the game.
    Exit,
    /// Close the pause dialog and carry on.
    Resume,
    /// Open the settings over the screen they return to.
    OpenSettings(SettingsOrigin),
    CloseSettings,
    /// Step a setting forwards.
    Adjust(SettingRow),
}

/// What pressing `action` does, with `humans` seats taken and the pause
/// dialog open or not. A round starts only once someone has a seat.
pub fn menu_outcome(action: MenuAction, humans: usize, pause_dialog_open: bool) -> (outcome: MenuOutcome)
    ensures
        outcome == match action {
            MenuAction::Start => MenuOutcome::Enter(AppState::Lobby),
            MenuAction::Launch => if humans > 0 {
                MenuOutcome::Enter(AppState::Playing)
            } else {
                MenuOutcome::Stay
            },
            MenuAction::Back => MenuOutcome::Enter(AppState::MainMenu),
            MenuAction::Exit => MenuOutcome::Exit,
            MenuAction::Resume => MenuOutcome::Resume,
            MenuAction::ReturnToMenu => MenuOutcome::Enter(AppState::MainMenu),
            MenuAction::OpenSettings => MenuOutcome::OpenSettings(if pause_dialog_open {
                SettingsOrigin::Pause
            } else {
                SettingsOrigin::MainMenu
            }),
            MenuAction::CloseSettings => MenuOutcome::CloseSettings,
            MenuAction::Setting(row) => MenuOutcome::Adjust(row),
        },
        outcome == MenuOutcome::Enter(AppState::Playing) ==> humans > 0,
{
    match action {
        MenuAction::Start => MenuOutcome::Enter(AppState::Lobby),
        MenuAction::Launch => if humans > 0 {
            MenuOutcome::Enter(AppState::Playing)
        } else {
            MenuOutcome::Stay
        },
        MenuAction::Back => MenuOutcome::Enter(AppState::MainMenu),
        MenuAction::Exit => MenuOutcome::Exit,
        MenuAction::Resume => MenuOutcome::Resume,
        MenuAction::ReturnToMenu => MenuOutcome::Enter(AppState::MainMenu),
        MenuAction::OpenSettings => MenuOutcome::OpenSettings(if pause_dialog_open {
            SettingsOrigin::Pause
        } else {
            SettingsOrigin::MainMenu
        }),
        MenuAction::CloseSettings => MenuOutcome::CloseSettings,
        MenuAction::Setting(row) => MenuOutcome::Adjust(row),
    }
}

} // verus!
