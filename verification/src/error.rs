//! The errors that configuration and port parsing can report.
use vstd::prelude::*;

use crate::text::{decimal, push_decimal, push_str};

verus! {

/// An error in the scan configuration, the port list or the target.
#[derive(Debug)]
pub enum PortPeekError {
    /// A range whose start lies above its end.
    InvalidPortRange { start: u16, end: u16 },
    /// A piece of the port list that is not a port number.
    InvalidPortNumber(String),
    /// A port list that names no port at all.
    NoPortsSpecified,
    /// A target that could not be resolved to an address.
    DnsResolutionFailed { target: String, reason: String },
    /// A concurrency limit of zero.
    InvalidConcurrency(usize),
    /// A timeout of zero.
    InvalidTimeout(u64),
}

/// The mathematical value of a [`PortPeekError`]: strings become character
/// sequences.
pub enum PortPeekErrorView {
    InvalidPortRange { start: u16, end: u16 },
    InvalidPortNumber(Seq<char>),
    NoPortsSpecified,
    DnsResolutionFailed { target: Seq<char>, reason: Seq<char> },
    InvalidConcurrency(usize),
    InvalidTimeout(u64),
}

impl View for PortPeekError {
    type V = PortPeekErrorView;

    open spec fn view(&self) -> PortPeekErrorView {
        match self {
            PortPeekError::InvalidPortRange { start, end } => PortPeekErrorView::InvalidPortRange {
                start: *start,
                end: *end,
            },
            PortPeekError::InvalidPortNumber(s) => PortPeekErrorView::InvalidPortNumber(s@),
            PortPeekError::NoPortsSpecified => PortPeekErrorView::NoPortsSpecified,
            PortPeekError::DnsResolutionFailed { target, reason } =>
                PortPeekErrorView::DnsResolutionFailed { target: target@, reason: reason@ },
            PortPeekError::InvalidConcurrency(c) => PortPeekErrorView::InvalidConcurrency(*c),
            PortPeekError::InvalidTimeout(t) => PortPeekErrorView::InvalidTimeout(*t),
        }
    }
}

/// The message that describes an error to the user.
pub open spec fn error_message(e: PortPeekErrorView) -> Seq<char> {
    match e {
        PortPeekErrorView::InvalidPortRange { start, end } => "Invalid port range: "@ + decimal(
            start as nat,
        ) + "-"@ + decimal(end as nat) + " (start must be <= end)"@,
        PortPeekErrorView::InvalidPortNumber(s) => "Invalid port number: '"@ + s + "'"@,
        PortPeekErrorView::NoPortsSpecified => "No valid ports specified"@,
        PortPeekErrorView::DnsResolutionFailed { target, reason } => "Failed to resolve target '"@
            + target + "': "@ + reason,
        PortPeekErrorView::InvalidConcurrency(c) => "Invalid concurrency value: "@ + decimal(
            c as nat,
        ) + " (must be greater than 0)"@,
        PortPeekErrorView::InvalidTimeout(t) => "Invalid timeout value: "@ + decimal(t as nat)
            + " (must be greater than 0)"@,
    }
}

impl PortPeekError {
    /// The message that describes this error to the user.
    pub fn message(&self) -> (m: String)
        ensures
            m@ == error_message(self@),
    {
        let mut m = String::new();
        match self {
            PortPeekError::InvalidPortRange { start, end } => {
                push_str(&mut m, "Invalid port range: ");
                push_decimal(&mut m, *start as u64);
                push_str(&mut m, "-");
                push_decimal(&mut m, *end as u64);
                push_str(&mut m, " (start must be <= end)");
            },
            PortPeekError::InvalidPortNumber(s) => {
                push_str(&mut m, "Invalid port number: '");
                push_str(&mut m, s.as_str());
                push_str(&mut m, "'");
            },
            PortPeekError::NoPortsSpecified => {
                push_str(&mut m, "No valid ports specified");
            },
            PortPeekError::DnsResolutionFailed { target, reason } => {
                push_str(&mut m, "Failed to resolve target '");
                push_str(&mut m, target.as_str());
                push_str(&mut m, "': ");
                push_str(&mut m, reason.as_str());
            },
            PortPeekError::InvalidConcurrency(c) => {
                push_str(&mut m, "Invalid concurrency value: ");
                push_decimal(&mut m, *c as u64);
                push_str(&mut m, " (must be greater than 0)");
            },
            PortPeekError::InvalidTimeout(t) => {
                push_str(&mut m, "Invalid timeout value: ");
                push_decimal(&mut m, *t);
                push_str(&mut m, " (must be greater than 0)");
            },
        }
        proof {
            assert(m@ =~= error_message(self@));
        }
        m
    }
}

} // verus!
