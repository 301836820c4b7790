//! Complaints about nodes, signed by who makes them.

use vstd::prelude::*;

use crate::crypto::keys::SigningKeypair;
use crate::crypto::primitives::{ed25519_public, ed25519_signature};
use crate::crypto::sign::SignedMessage;
use crate::node::identity::NodeId;
use crate::reputation::error::ReputationError;
use crate::util::clock::unix_now;
use crate::util::hex::hex_text;
use crate::util::text::same_text;

verus! {

/// How many different nodes have to complain before a node is punished, each time anew.
pub const REPORTS_THRESHOLD: i64 = 3;

/// What a complaint is about.
#[derive(Debug, Clone, Copy, PartialEq, Eq, Structural)]
pub enum ReportReason {
    Spam,
    MaliciousContent,
    BadChunks,
}

impl ReportReason {
    /// The reason as it is recorded.
    pub fn display(&self) -> (r: &'static str)
        ensures
            r@ == (match *self {
                ReportReason::Spam => "spam"@,
                ReportReason::MaliciousContent => "malicious_content"@,
                ReportReason::BadChunks => "bad_chunks"@,
            }),
    {
        match self {
            ReportReason::Spam => "spam",
            ReportReason::MaliciousContent => "malicious_content",
            ReportReason::BadChunks => "bad_chunks",
        }
    }
}

/// A complaint.
#[derive(Debug, Clone, PartialEq, Eq)]
pub struct ReportPayload {
    /// The node that is complained about.
    pub target_key: String,
    pub reason: ReportReason,
    /// When the complaint was made, in seconds of Unix time.
    pub timestamp: i64,
}

impl ReportPayload {
    /// A complaint of this moment.
    pub fn new(target_key: String, reason: ReportReason) -> (r: ReportPayload)
        ensures
            r.target_key == target_key,
            r.reason == reason,
    {
        ReportPayload::at(target_key, reason, unix_now())
    }

    /// A complaint of the given moment.
    pub fn at(target_key: String, reason: ReportReason, timestamp: i64) -> (r: ReportPayload)
        ensures
            r == (ReportPayload { target_key, reason, timestamp }),
    {
        ReportPayload { target_key, reason, timestamp }
    }
}

/// Signs the bytes of a complaint. It never fails, and the result passes the check.
pub fn sign_report(payload: Vec<u8>, keypair: &SigningKeypair) -> (r: Result<
    SignedMessage,
    ReputationError,
>)
    ensures
        r matches Ok(m) && {
            &&& m.payload@ == payload@
            &&& m.signature@ == hex_text(ed25519_signature(keypair.seed(), payload@))
            &&& m.signer@ == hex_text(ed25519_public(keypair.seed()))
            &&& m.verdict() is Ok
        },
{
    match SignedMessage::sign(payload, keypair) {
        Ok(m) => Ok(m),
        Err(e) => Err(ReputationError::Crypto(e)),
    }
}

/// Whether a complaint that has come is taken: its signature has to hold, it has to come
/// from its signer, it has to be readable, and nobody complains about itself. The first
/// of these that fails is the error.
pub fn accept_report(
    signed: &SignedMessage,
    reporter_id: &NodeId,
    parsed: Result<ReportPayload, String>,
) -> (r: Result<ReportPayload, ReputationError>)
    ensures
        match signed.verdict() {
            Err(f) => r matches Err(ReputationError::Crypto(e)) && e@ == f,
            Ok(()) => if signed.signer@ != reporter_id@ {
                r matches Err(ReputationError::SignerMismatch)
            } else {
                match parsed {
                    Err(m) => r == Err::<ReportPayload, ReputationError>(
                        ReputationError::Deserialize(m),
                    ),
                    Ok(p) => if p.target_key@ == reporter_id@ {
                        r matches Err(ReputationError::SelfReport)
                    } else {
                        r == Ok::<ReportPayload, ReputationError>(p)
                    },
                }
            },
        },
{
    match signed.verify() {
        Err(e) => {
            return Err(ReputationError::Crypto(e));
        },
        Ok(()) => {},
    }
    if !same_text(signed.signer.as_str(), reporter_id.as_str()) {
        return Err(ReputationError::SignerMismatch);
    }
    match parsed {
        Err(m) => Err(ReputationError::Deserialize(m)),
        Ok(p) => if same_text(p.target_key.as_str(), reporter_id.as_str()) {
            Err(ReputationError::SelfReport)
        } else {
            Ok(p)
        },
    }
}

/// Whether a node is punished, now that so many different nodes have complained: at three
/// of them, at six, and so on.
pub fn penalty_due(count: i64) -> (r: bool)
    ensures
        r == (count > 0 && count as int % REPORTS_THRESHOLD as int == 0),
{
    count > 0 && count % REPORTS_THRESHOLD == 0
}

/// A node is punished each time that three more different nodes have complained.
pub proof fn law_three_complaints_punish()
    ensures
        REPORTS_THRESHOLD == 3,
{
}

} // verus!
