use search_aggregator::card::Card;
use search_aggregator::card::CardCommand;
use search_aggregator::card::CardError;
use search_aggregator::card::CardEvent;
use search_aggregator::card::UtcMillis;

fn datetime(millis: i64) -> UtcMillis {
    millis
}

fn given(events: Vec<CardEvent>) -> Card {
    Card::replay(&events)
}

#[test]
fn test_card_issued_ok() {
    let issued = datetime(100);
    let until = datetime(200);
    let card = Card::default();
    assert_eq!(
        Ok(vec![CardEvent::CardIssued { issued, until }]),
        card.handle(CardCommand::IssueCard { issued, until })
    );
}

#[test]
fn test_already_issed() {
    let card = given(vec![CardEvent::CardIssued {
        issued: datetime(0),
        until: datetime(100),
    }]);
    assert_eq!(
        Err(CardError::CardAlreadyExists),
        card.handle(CardCommand::IssueCard {
            issued: datetime(50),
            until: datetime(150),
        })
    );
}

#[test]
fn test_until_before_issued() {
    let card = Card::default();
    assert_eq!(
        Err(CardError::UntilBeforeIssued),
        card.handle(CardCommand::IssueCard {
            issued: datetime(100),
            until: datetime(50),
        })
    );
}

#[test]
fn test_extended_ok() {
    let card = given(vec![CardEvent::CardIssued {
        issued: datetime(0),
        until: datetime(50),
    }]);
    assert_eq!(
        Ok(vec![CardEvent::CardExtended {
            until: datetime(200),
        }]),
        card.handle(CardCommand::ExtendCard {
            until: datetime(200),
        })
    );
}

#[test]
fn test_extended_invalid_until() {
    let card = given(vec![CardEvent::CardIssued {
        issued: datetime(0),
        until: datetime(50),
    }]);
    assert_eq!(
        Err(CardError::InvalidExtendingDate),
        card.handle(CardCommand::ExtendCard {
            until: datetime(20),
        })
    );
}

#[test]
fn test_enter_ok() {
    let card = given(vec![CardEvent::CardIssued {
        issued: datetime(0),
        until: datetime(50),
    }]);
    assert_eq!(
        Ok(vec![CardEvent::CardEntered { time: datetime(25) }]),
        card.handle(CardCommand::Enter { time: datetime(25) })
    );
}

#[test]
fn test_enter_after_expiration() {
    let card = given(vec![CardEvent::CardIssued {
        issued: datetime(0),
        until: datetime(50),
    }]);
    assert_eq!(
        Err(CardError::CardExpired),
        card.handle(CardCommand::Enter {
            time: datetime(100),
        })
    );
}

#[test]
fn test_enter_after_enter() {
    let card = given(vec![
        CardEvent::CardIssued {
            issued: datetime(0),
            until: datetime(50),
        },
        CardEvent::CardEntered { time: datetime(25) },
    ]);
    assert_eq!(
        Err(CardError::CardAlreadyInClub),
        card.handle(CardCommand::Enter { time: datetime(30) })
    );
}

#[test]
fn test_leave_ok() {
    let card = given(vec![
        CardEvent::CardIssued {
            issued: datetime(0),
            until: datetime(50),
        },
        CardEvent::CardEntered { time: datetime(25) },
    ]);
    assert_eq!(
        Ok(vec![CardEvent::CardLeft { time: datetime(30) }]),
        card.handle(CardCommand::Leave { time: datetime(30) })
    );
}

#[test]
fn test_leave_after_leave() {
    let card = given(vec![
        CardEvent::CardIssued {
            issued: datetime(0),
            until: datetime(50),
        },
        CardEvent::CardEntered { time: datetime(25) },
        CardEvent::CardLeft { time: datetime(30) },
    ]);
    assert_eq!(
        Err(CardError::CardAlreadyLeft),
        card.handle(CardCommand::Leave { time: datetime(40) })
    );
}

#[test]
fn card_commands_on_missing_card_are_refused() {
    let card = Card::default();
    assert_eq!(
        Err(CardError::CardNotFound),
        card.handle(CardCommand::ExtendCard { until: datetime(10) })
    );
    assert_eq!(
        Err(CardError::CardNotFound),
        card.handle(CardCommand::Enter { time: datetime(10) })
    );
    assert_eq!(
        Err(CardError::CardNotFound),
        card.handle(CardCommand::Leave { time: datetime(10) })
    );
}

#[test]
fn card_replay_tracks_extension_and_visits() {
    let card = given(vec![
        CardEvent::CardIssued {
            issued: datetime(0),
            until: datetime(50),
        },
        CardEvent::CardExtended {
            until: datetime(500),
        },
        CardEvent::CardEntered { time: datetime(100) },
    ]);
    let events = card
        .handle(CardCommand::Leave {
            time: datetime(200),
        })
        .unwrap();
    assert_eq!(vec![CardEvent::CardLeft { time: datetime(200) }], events);
}
