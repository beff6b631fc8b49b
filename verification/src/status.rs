//! A profile's presence status, and its wire text.
//!
//! On the wire a status is the plain text of its name — `Online`, `Away`,
//! `Offline` — and nothing else: text that names no status does not match
//! the schema, and readers reject it instead of guessing a default.

use vstd::prelude::*;

use crate::bytes::bytes_eq;

verus! {

/// A profile's presence status.
#[derive(Clone, Copy, PartialEq, Eq, Structural, Debug)]
pub enum Status {
    Online,
    Away,
    Offline,
}

/// The wire text of `Status::Online`.
pub open spec fn online_text() -> Seq<u8> {
    seq![79u8, 110u8, 108u8, 105u8, 110u8, 101u8]
}

/// The wire text of `Status::Away`.
pub open spec fn away_text() -> Seq<u8> {
    seq![65u8, 119u8, 97u8, 121u8]
}

/// The wire text of `Status::Offline`.
pub open spec fn offline_text() -> Seq<u8> {
    seq![79u8, 102u8, 102u8, 108u8, 105u8, 110u8, 101u8]
}

/// The wire text of a status.
pub open spec fn status_text(s: Status) -> Seq<u8> {
    match s {
        Status::Online => online_text(),
        Status::Away => away_text(),
        Status::Offline => offline_text(),
    }
}

/// The status some wire text names, if it names one.
pub open spec fn status_from_text(t: Seq<u8>) -> Option<Status> {
    if t == online_text() {
        Some(Status::Online)
    } else if t == away_text() {
        Some(Status::Away)
    } else if t == offline_text() {
        Some(Status::Offline)
    } else {
        None
    }
}

impl Status {
    /// This status's wire text.
    pub fn to_text(&self) -> (r: Vec<u8>)
        ensures
            r@ == status_text(*self),
    {
        let mut r: Vec<u8> = Vec::new();
        match self {
            Status::Online => {
                r.push(79u8);
                r.push(110u8);
                r.push(108u8);
                r.push(105u8);
                r.push(110u8);
                r.push(101u8);
                proof {
                    assert(r@ =~= online_text());
                }
            },
            Status::Away => {
                r.push(65u8);
                r.push(119u8);
                r.push(97u8);
                r.push(121u8);
                proof {
                    assert(r@ =~= away_text());
                }
            },
            Status::Offline => {
                r.push(79u8);
                r.push(102u8);
                r.push(102u8);
                r.push(108u8);
                r.push(105u8);
                r.push(110u8);
                r.push(101u8);
                proof {
                    assert(r@ =~= offline_text());
                }
            },
        }
        r
    }

    /// The status this wire text names, or nothing for text that names no
    /// status: an unknown status is a schema mismatch, never a default.
    pub fn of_text(t: &Vec<u8>) -> (r: Option<Status>)
        ensures
            r == status_from_text(t@),
    {
        let online = Status::Online.to_text();
        if bytes_eq(t, &online) {
            return Some(Status::Online);
        }
        let away = Status::Away.to_text();
        if bytes_eq(t, &away) {
            return Some(Status::Away);
        }
        let offline = Status::Offline.to_text();
        if bytes_eq(t, &offline) {
            return Some(Status::Offline);
        }
        None
    }
}

/// Reading a status's written text gives the status back, for every status:
/// the wire texts of the three statuses are pairwise distinct.
pub proof fn lemma_status_text_roundtrip(s: Status)
    ensures
        status_from_text(status_text(s)) == Some(s),
{
    assert(online_text().len() == 6);
    assert(away_text().len() == 4);
    assert(offline_text().len() == 7);
}

} // verus!
