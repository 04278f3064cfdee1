//! The club-card aggregate: commands are checked against the card's state
//! and turned into events, and events are applied to move the state along.
//! Instants are Unix timestamps in milliseconds.

use vstd::prelude::*;

verus! {

pub type UtcMillis = i64;

pub type CardId = String;

#[derive(Debug, Clone, Copy, PartialEq, Eq, Structural)]
pub struct CardInfo {
    pub issued: UtcMillis,
    pub until: UtcMillis,
    pub in_club: bool,
}

/// A card either exists with its data or was never issued.
#[derive(Debug, Clone, Copy, PartialEq, Eq, Structural)]
pub enum Card {
    Existent { info: CardInfo },
    Unexistent,
}

impl Default for Card {
    fn default() -> (r: Self)
        ensures
            r == Card::Unexistent,
    {
        Card::Unexistent
    }
}

#[derive(Debug, Clone, Copy, PartialEq, Eq, Structural)]
pub enum CardEvent {
    CardIssued { issued: UtcMillis, until: UtcMillis },
    CardExtended { until: UtcMillis },
    CardEntered { time: UtcMillis },
    CardLeft { time: UtcMillis },
}

#[derive(Debug, Clone, Copy, PartialEq, Eq, Structural)]
pub enum CardCommand {
    IssueCard { issued: UtcMillis, until: UtcMillis },
    ExtendCard { until: UtcMillis },
    Enter { time: UtcMillis },
    Leave { time: UtcMillis },
}

#[derive(Debug, Clone, Copy, PartialEq, Eq, Structural)]
pub enum CardError {
    CardNotFound,
    UntilBeforeIssued,
    InvalidExtendingDate,
    CardAlreadyExists,
    CardExpired,
    CardAlreadyInClub,
    CardAlreadyLeft,
}

/// What `handle` decides for each command in each state: either the events
/// to record, or the error that refuses the command.
pub open spec fn spec_handle(card: Card, command: CardCommand) -> Result<
    Seq<CardEvent>,
    CardError,
> {
    match command {
        CardCommand::IssueCard { issued, until } => match card {
            Card::Existent { .. } => Err(CardError::CardAlreadyExists),
            Card::Unexistent => if until < issued {
                Err(CardError::UntilBeforeIssued)
            } else {
                Ok(seq![CardEvent::CardIssued { issued, until }])
            },
        },
        CardCommand::ExtendCard { until } => match card {
            Card::Unexistent => Err(CardError::CardNotFound),
            Card::Existent { info } => if until < info.until {
                Err(CardError::InvalidExtendingDate)
            } else {
                Ok(seq![CardEvent::CardExtended { until }])
            },
        },
        CardCommand::Enter { time } => match card {
            Card::Unexistent => Err(CardError::CardNotFound),
            Card::Existent { info } => if info.until < time {
                Err(CardError::CardExpired)
            } else if info.in_club {
                Err(CardError::CardAlreadyInClub)
            } else {
                Ok(seq![CardEvent::CardEntered { time }])
            },
        },
        CardCommand::Leave { time } => match card {
            Card::Unexistent => Err(CardError::CardNotFound),
            Card::Existent { info } => if !info.in_club {
                Err(CardError::CardAlreadyLeft)
            } else {
                Ok(seq![CardEvent::CardLeft { time }])
            },
        },
    }
}

/// What `apply` does to the state for each event.  Every event but
/// `CardIssued` presumes an existent card; `spec_handle` only ever emits
/// them for one.
pub open spec fn spec_apply(card: Card, event: CardEvent) -> Card {
    match event {
        CardEvent::CardIssued { issued, until } => Card::Existent {
            info: CardInfo { issued, until, in_club: false },
        },
        CardEvent::CardExtended { until } => match card {
            Card::Existent { info } => Card::Existent {
                info: CardInfo { issued: info.issued, until, in_club: info.in_club },
            },
            Card::Unexistent => Card::Unexistent,
        },
        CardEvent::CardEntered { .. } => match card {
            Card::Existent { info } => Card::Existent {
                info: CardInfo { issued: info.issued, until: info.until, in_club: true },
            },
            Card::Unexistent => Card::Unexistent,
        },
        CardEvent::CardLeft { .. } => match card {
            Card::Existent { info } => Card::Existent {
                info: CardInfo { issued: info.issued, until: info.until, in_club: false },
            },
            Card::Unexistent => Card::Unexistent,
        },
    }
}

impl Card {
    /// Decides a command: the events to record, or the error refusing it.
    /// Issuing needs a not-yet-issued card and a coherent validity span;
    /// extending never shortens; entering needs a valid card outside the
    /// club; leaving needs a card inside.
    pub fn handle(&self, command: CardCommand) -> (r: Result<Vec<CardEvent>, CardError>)
        ensures
            match spec_handle(*self, command) {
                Ok(evs) => r matches Ok(v) && v@ == evs,
                Err(e) => r == Err::<Vec<CardEvent>, CardError>(e),
            },
    {
        match command {
            CardCommand::IssueCard { issued, until } => match self {
                Card::Existent { .. } => Err(CardError::CardAlreadyExists),
                Card::Unexistent => {
                    if until < issued {
                        return Err(CardError::UntilBeforeIssued);
                    }
                    let mut evs: Vec<CardEvent> = Vec::new();
                    evs.push(CardEvent::CardIssued { issued, until });
                    proof {
                        assert(evs@ =~= seq![CardEvent::CardIssued { issued, until }]);
                    }
                    Ok(evs)
                },
            },
            CardCommand::ExtendCard { until } => match self {
                Card::Unexistent => Err(CardError::CardNotFound),
                Card::Existent { info } => {
                    if until < info.until {
                        Err(CardError::InvalidExtendingDate)
                    } else {
                        let mut evs: Vec<CardEvent> = Vec::new();
                        evs.push(CardEvent::CardExtended { until });
                        proof {
                            assert(evs@ =~= seq![CardEvent::CardExtended { until }]);
                        }
                        Ok(evs)
                    }
                },
            },
            CardCommand::Enter { time } => match self {
                Card::Unexistent => Err(CardError::CardNotFound),
                Card::Existent { info } => {
                    if info.until < time {
                        Err(CardError::CardExpired)
                    } else if info.in_club {
                        Err(CardError::CardAlreadyInClub)
                    } else {
                        let mut evs: Vec<CardEvent> = Vec::new();
                        evs.push(CardEvent::CardEntered { time });
                        proof {
                            assert(evs@ =~= seq![CardEvent::CardEntered { time }]);
                        }
                        Ok(evs)
                    }
                },
            },
            CardCommand::Leave { time } => match self {
                Card::Unexistent => Err(CardError::CardNotFound),
                Card::Existent { info } => {
                    if !info.in_club {
                        Err(CardError::CardAlreadyLeft)
                    } else {
                        let mut evs: Vec<CardEvent> = Vec::new();
                        evs.push(CardEvent::CardLeft { time });
                        proof {
                            assert(evs@ =~= seq![CardEvent::CardLeft { time }]);
                        }
                        Ok(evs)
                    }
                },
            },
        }
    }

    /// Records one event in the state.  Any event but an issue presumes the
    /// card exists, which `handle` guarantees for the events it emits.
    pub fn apply(&mut self, event: CardEvent)
        requires
            *old(self) is Existent || event is CardIssued,
        ensures
            *final(self) == spec_apply(*old(self), event),
    {
        match event {
            CardEvent::CardIssued { issued, until } => {
                *self = Card::Existent { info: CardInfo { issued, until, in_club: false } };
            },
            CardEvent::CardExtended { until } => match self {
                Card::Existent { info } => {
                    info.until = until;
                },
                Card::Unexistent => {},
            },
            CardEvent::CardEntered { .. } => match self {
                Card::Existent { info } => {
                    info.in_club = true;
                },
                Card::Unexistent => {},
            },
            CardEvent::CardLeft { .. } => match self {
                Card::Existent { info } => {
                    info.in_club = false;
                },
                Card::Unexistent => {},
            },
        }
    }

    /// Folds a run of recorded events over the blank state; what a freshly
    /// loaded aggregate shows after replay.
    pub fn replay(events: &Vec<CardEvent>) -> (r: Card)
        requires
            replay_ok(events@),
        ensures
            r == spec_replay(events@),
    {
        let mut card = Card::Unexistent;
        let mut i: usize = 0;
        while i < events.len()
            invariant
                0 <= i <= events@.len(),
                card == spec_replay(events@.take(i as int)),
                replay_ok(events@),
            decreases events@.len() - i,
        {
            proof {
                lemma_replay_ok_prefix(events@, i + 1);
                assert(events@.take(i + 1).drop_last() =~= events@.take(i as int));
                assert(events@.take(i + 1).last() == events@[i as int]);
            }
            card.apply(events[i]);
            i += 1;
        }
        proof {
            assert(events@.take(events@.len() as int) =~= events@);
        }
        card
    }
}

/// A run of events that never touches a card before it is issued: every
/// event but an issue finds an existent card when its turn comes.
pub open spec fn replay_ok(events: Seq<CardEvent>) -> bool
    decreases events.len(),
{
    if events.len() == 0 {
        true
    } else {
        &&& replay_ok(events.drop_last())
        &&& (spec_replay(events.drop_last()) is Existent || events.last() is CardIssued)
    }
}

/// Every prefix of a sound run is itself sound.
proof fn lemma_replay_ok_prefix(events: Seq<CardEvent>, i: int)
    requires
        replay_ok(events),
        0 <= i <= events.len(),
    ensures
        replay_ok(events.take(i)),
    decreases events.len() - i,
{
    if i == events.len() {
        assert(events.take(i) =~= events);
    } else {
        lemma_replay_ok_prefix(events, i + 1);
        assert(events.take(i + 1).drop_last() =~= events.take(i));
    }
}

/// The state after replaying a run of events from the blank state.
pub open spec fn spec_replay(events: Seq<CardEvent>) -> Card
    decreases events.len(),
{
    if events.len() == 0 {
        Card::Unexistent
    } else {
        spec_apply(spec_replay(events.drop_last()), events.last())
    }
}

} // verus!
