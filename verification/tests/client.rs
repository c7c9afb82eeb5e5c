//! How a client keeps its connection up.

use syncpond::client::{after_attempt, AfterAttempt, Link, LinkEvent};

#[test]
fn attempts_are_repeated_as_often_as_allowed() {
    assert_eq!(after_attempt(0, 0, false), AfterAttempt::GiveUp);
    assert_eq!(after_attempt(0, 2, false), AfterAttempt::Retry(1));
    assert_eq!(after_attempt(2, 2, false), AfterAttempt::GiveUp);
    assert_eq!(after_attempt(2, 2, true), AfterAttempt::Connected);
}

#[test]
fn four_failures_lead_to_a_pause() {
    let mut link = Link::new();
    for attempt in 1..4 {
        link = link.step(LinkEvent::ConnectFailed);
        assert_eq!(link, Link::Retrying { attempt });
        link = link.step(LinkEvent::WaitOver);
        assert_eq!(link, Link::Connecting { attempt });
    }
    link = link.step(LinkEvent::ConnectFailed);
    assert_eq!(link, Link::Pausing);
    assert_eq!(link.step(LinkEvent::WaitOver), Link::new());
    assert_eq!(link.step(LinkEvent::ShutdownRequested), Link::Stopped);
}

#[test]
fn lost_connections_are_made_anew() {
    let link = Link::new().step(LinkEvent::ConnectSucceeded);
    assert_eq!(link, Link::Connected);
    assert_eq!(link.step(LinkEvent::LineDelivered), Link::Connected);
    assert_eq!(link.step(LinkEvent::CommandWritten), Link::Connected);
    for event in [LinkEvent::PeerClosed, LinkEvent::ReadFailed, LinkEvent::WriteFailed] {
        assert_eq!(link.step(event), Link::new());
    }
}

#[test]
fn clients_stop_for_good() {
    let link = Link::new().step(LinkEvent::ConnectSucceeded);
    for event in [LinkEvent::LineUnwanted, LinkEvent::SendersGone, LinkEvent::ShutdownRequested] {
        assert_eq!(link.step(event), Link::Stopped);
    }
    assert_eq!(Link::Stopped.step(LinkEvent::WaitOver), Link::Stopped);
    assert_eq!(Link::new().step(LinkEvent::ShutdownRequested), Link::Stopped);
    let retrying = Link::new().step(LinkEvent::ConnectFailed);
    assert_eq!(retrying.step(LinkEvent::ShutdownRequested), retrying);
}
