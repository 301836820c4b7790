use void_connect::crypto::error::CryptoError;
use void_connect::crypto::keys::SigningKeypair;
use void_connect::node::identity::NodeId;
use void_connect::reputation::error::ReputationError;
use void_connect::reputation::events::{
    block_for_level, EventProcessor, ReputationEvent, ReputationStep, NEGATIVE_BLOCK_NANOS,
};
use void_connect::reputation::reports::{
    accept_report, penalty_due, sign_report, ReportPayload, ReportReason,
};
use void_connect::reputation::score::{Bonus, ReputationDelta, ReputationLevel};
use void_connect::reputation::sync::{
    accept_sync, counting_entries, entries_to_send, MAX_SYNC_ENTRIES,
};

fn keypair(seed: u8) -> (SigningKeypair, NodeId) {
    let kp = SigningKeypair::from_seed(&[seed; 32]).unwrap();
    let id = NodeId::from_public_key_bytes(&kp.public_bytes());
    (kp, id)
}

fn node(seed: u8) -> NodeId {
    NodeId::from_public_key_bytes(&[seed; 32])
}

#[test]
fn sync_signer_mismatch_rejected() {
    let (kp, a_id) = keypair(1);
    let signed = sign_report(b"[]".to_vec(), &kp).unwrap();
    let (_kp, wrong) = keypair(7);
    let res = accept_sync(&wrong, &signed, Ok(vec![]), &a_id);
    assert!(matches!(res, Err(ReputationError::SignerMismatch)));
}

#[test]
fn syncs_are_checked_and_filtered() {
    let (kp, from) = keypair(1);
    let (_, me) = keypair(2);
    let signed = sign_report(b"[]".to_vec(), &kp).unwrap();
    let targets = vec![node(9).0, me.0.clone(), from.0.clone(), node(8).0];
    assert_eq!(accept_sync(&from, &signed, Ok(targets.clone()), &me), Ok(vec![0, 3]));
    assert_eq!(counting_entries(&targets, &me, &from), vec![0, 3]);
    assert_eq!(
        accept_sync(&from, &signed, Err("bad".into()), &me),
        Err(ReputationError::Deserialize("bad".into()))
    );
    let mut broken = signed.clone();
    broken.payload.push(0);
    assert_eq!(
        accept_sync(&from, &broken, Ok(targets), &me),
        Err(ReputationError::Crypto(CryptoError::InvalidSignature))
    );
}

#[test]
fn at_most_so_many_entries_count() {
    let targets: Vec<String> = (0..300).map(|i| format!("n{i}")).collect();
    let places = counting_entries(&targets, &node(1), &node(2));
    assert_eq!(places.len(), MAX_SYNC_ENTRIES);
    assert_eq!(places[199], 199);
    assert_eq!(entries_to_send(300), 200);
    assert_eq!(entries_to_send(3), 3);
}

#[test]
fn reports_are_checked() {
    let (kp, reporter) = keypair(1);
    let signed = sign_report(b"{}".to_vec(), &kp).unwrap();
    let good = ReportPayload::at(node(9).0, ReportReason::Spam, 5);
    assert_eq!(accept_report(&signed, &reporter, Ok(good.clone())), Ok(good.clone()));
    assert_eq!(
        accept_report(&signed, &node(9), Ok(good.clone())),
        Err(ReputationError::SignerMismatch)
    );
    assert_eq!(
        accept_report(&signed, &reporter, Err("bad".into())),
        Err(ReputationError::Deserialize("bad".into()))
    );
    let own = ReportPayload::at(reporter.0.clone(), ReportReason::Spam, 5);
    assert_eq!(accept_report(&signed, &reporter, Ok(own)), Err(ReputationError::SelfReport));
    let mut broken = signed.clone();
    broken.payload = b"{ }".to_vec();
    assert_eq!(
        accept_report(&broken, &reporter, Ok(good)),
        Err(ReputationError::Crypto(CryptoError::InvalidSignature))
    );
    assert!(ReportPayload::new("t".into(), ReportReason::Spam).timestamp > 1_600_000_000);
}

#[test]
fn each_third_report_is_punished() {
    assert!(!penalty_due(0));
    assert!(!penalty_due(2));
    assert!(penalty_due(3));
    assert!(!penalty_due(4));
    assert!(penalty_due(6));
}

#[test]
fn levels_follow_the_marks() {
    let level = |score: f64| {
        ReputationLevel::from_comparisons(score > 50.0, score >= 0.0, score >= -20.0)
    };
    assert_eq!(level(50.1), ReputationLevel::High);
    assert_eq!(level(50.0), ReputationLevel::Normal);
    assert_eq!(level(0.0), ReputationLevel::Normal);
    assert_eq!(level(-0.1), ReputationLevel::Low);
    assert_eq!(level(-20.0), ReputationLevel::Low);
    assert_eq!(level(-20.1), ReputationLevel::Negative);
    assert_eq!(level(f64::NAN), ReputationLevel::Negative);
    assert_eq!(block_for_level(ReputationLevel::Negative), Some(NEGATIVE_BLOCK_NANOS));
    assert_eq!(block_for_level(ReputationLevel::Low), None);
}

#[test]
fn events_give_changes() {
    let mut p = EventProcessor::new();
    let id = node(1);
    assert_eq!(
        p.process(ReputationEvent::ValidChunk { peer_id: id.clone(), size_bytes: 1000 }, 0),
        ReputationStep::Record {
            peer_id: id.clone(),
            delta: ReputationDelta::valid_chunk(1000),
            check_level: false,
        }
    );
    assert_eq!(
        p.process(ReputationEvent::BadChunk { peer_id: id.clone() }, 0),
        ReputationStep::Record {
            peer_id: id.clone(),
            delta: ReputationDelta::bad_chunk(),
            check_level: true,
        }
    );
    assert_eq!(
        p.process(ReputationEvent::SpamStrike { peer_id: id.clone() }, 0),
        ReputationStep::Record {
            peer_id: id.clone(),
            delta: ReputationDelta::spam_strike(),
            check_level: true,
        }
    );
    assert_eq!(
        p.process(ReputationEvent::BootstrapAssist { peer_id: id.clone() }, 0),
        ReputationStep::Record {
            peer_id: id.clone(),
            delta: ReputationDelta::bonus(Bonus::Assist),
            check_level: false,
        }
    );
}

#[test]
fn sessions_give_uptime() {
    let mut p = EventProcessor::new();
    let id = node(2);
    let up = ReputationEvent::PeerConnected { peer_id: id.clone() };
    assert_eq!(p.process(up, 1_500_000_000), ReputationStep::Open { peer_id: id.clone() });
    assert_eq!(p.online(), vec![id.clone()]);
    let down = ReputationEvent::PeerDisconnected { peer_id: id.clone() };
    match p.process(down.clone(), 3_601_499_999_999) {
        ReputationStep::Record { delta, .. } => assert_eq!(delta.uptime_seconds, 3599),
        other => panic!("{other:?}"),
    }
    assert_eq!(p.process(down, 0), ReputationStep::Ignore);
    assert_eq!(p.online(), vec![]);
}

#[test]
fn changes_name_what_they_count() {
    let d = ReputationDelta::valid_chunk(7);
    assert_eq!((d.upload_bytes, d.valid_chunks_sent), (7, 1));
    assert_eq!(ReputationDelta::bad_chunk().bad_chunks_sent, 1);
    assert_eq!(ReputationDelta::spam_strike().spam_strikes, 1);
    assert_eq!(ReputationDelta::uptime(60).uptime_seconds, 60);
    assert_eq!(ReputationDelta::none().bonus, Bonus::Nothing);
}
