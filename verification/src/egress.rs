//! The reports that the enclave sends to the chain.

use vstd::prelude::*;
use crate::bounded::{report_as_slice, report_seq, report_try_from, ReportBytes, UNPADDED_REPORT_SIZE};
use crate::codec::{
    byte_list_bytes, dump_bytes, lemma_join, lemma_parse_byte_list, lemma_parse_dump,
    lemma_parse_signature, lemma_parse_snapshot, parse_byte_list, parse_dump, parse_signature,
    parse_snapshot, put_byte_list, put_dump, put_snapshot, snapshot_bytes, take_byte_list,
    take_dump, take_signature, take_snapshot, Parsed,
};
use crate::crypto::Signature;
use crate::error::Error;
use crate::scale::put_bytes;
use crate::snapshot::{
    EnclaveAccountInfoDump, EnclaveAccountInfoDumpView, EnclaveSnapshot, EnclaveSnapshotView,
};

verus! {

/// A report of the enclave.
#[derive(Debug)]
pub enum EgressMessages {
    /// A dump of all accounts, with the enclave's signature over it.
    EnclaveAccountDump(EnclaveAccountInfoDump, Signature),
    /// A snapshot, with the enclave's signature over it.
    EnclaveSnapshot(EnclaveSnapshot, Signature),
    /// The attestation report with which an enclave asks to be registered.
    RegisterEnclave(ReportBytes),
}

/// The size of an attestation report without padding.
pub struct UnpaddedReportSize;

impl UnpaddedReportSize {
    pub fn get() -> (size: u32)
        ensures
            size == UNPADDED_REPORT_SIZE,
    {
        UNPADDED_REPORT_SIZE
    }
}

/// The attestation report that holds `bytes`. It fails with `CapacityExceeded` where they are
/// more than a report can hold.
pub fn attestation_report(bytes: Vec<u8>) -> (made: Result<ReportBytes, Error>)
    ensures
        made is Ok <==> bytes@.len() <= UNPADDED_REPORT_SIZE,
        made matches Ok(report) ==> report_seq(report) == bytes@,
        made matches Err(e) ==> e == Error::CapacityExceeded,
{
    match report_try_from(bytes) {
        Ok(report) => Ok(report),
        Err(_) => Err(Error::CapacityExceeded),
    }
}

/// The bytes of an attestation report.
pub fn report_bytes(report: &ReportBytes) -> (bytes: &[u8])
    ensures
        bytes@ == report_seq(*report),
        bytes@.len() <= UNPADDED_REPORT_SIZE,
{
    report_as_slice(report)
}

/// What a report holds, as plain values.
pub enum EgressView {
    EnclaveAccountDump(EnclaveAccountInfoDumpView, Signature),
    EnclaveSnapshot(EnclaveSnapshotView, Signature),
    RegisterEnclave(Seq<u8>),
}

impl EgressView {
    /// What every report satisfies: its dump or snapshot is well formed, or its bytes are
    /// no more than an attestation report holds.
    pub open spec fn well_formed(self) -> bool {
        match self {
            EgressView::EnclaveAccountDump(dump, _) => dump.well_formed(),
            EgressView::EnclaveSnapshot(snapshot, _) => snapshot.well_formed(),
            EgressView::RegisterEnclave(report) => report.len() <= UNPADDED_REPORT_SIZE,
        }
    }
}

impl View for EgressMessages {
    type V = EgressView;

    open spec fn view(&self) -> EgressView {
        match self {
            EgressMessages::EnclaveAccountDump(dump, signature) => EgressView::EnclaveAccountDump(
                dump@,
                *signature,
            ),
            EgressMessages::EnclaveSnapshot(snapshot, signature) => EgressView::EnclaveSnapshot(
                snapshot@,
                *signature,
            ),
            EgressMessages::RegisterEnclave(report) => EgressView::RegisterEnclave(
                report_seq(*report),
            ),
        }
    }
}

/// The bytes of a report: the index of its variant, then its fields.
pub open spec fn egress_bytes(message: EgressView) -> Seq<u8> {
    match message {
        EgressView::EnclaveAccountDump(dump, signature) => seq![0u8] + dump_bytes(dump)
            + signature.bytes@,
        EgressView::EnclaveSnapshot(snapshot, signature) => seq![1u8] + snapshot_bytes(snapshot)
            + signature.bytes@,
        EgressView::RegisterEnclave(report) => seq![2u8] + byte_list_bytes(report),
    }
}

/// Reads a dump and the signature over it.
pub open spec fn parse_signed_dump(bytes: Seq<u8>) -> Parsed<EgressView> {
    match parse_dump(bytes) {
        Some((dump, rest)) => match parse_signature(rest) {
            Some((signature, rest)) => Some((EgressView::EnclaveAccountDump(dump, signature), rest)),
            None => None,
        },
        None => None,
    }
}

/// Reads a snapshot and the signature over it.
pub open spec fn parse_signed_snapshot(bytes: Seq<u8>) -> Parsed<EgressView> {
    match parse_snapshot(bytes) {
        Some((snapshot, rest)) => match parse_signature(rest) {
            Some((signature, rest)) => Some((EgressView::EnclaveSnapshot(snapshot, signature), rest)),
            None => None,
        },
        None => None,
    }
}

/// Reads an attestation report: a list of no more bytes than a report holds.
pub open spec fn parse_report(bytes: Seq<u8>) -> Parsed<EgressView> {
    match parse_byte_list(bytes) {
        Some((report, rest)) => if report.len() <= UNPADDED_REPORT_SIZE {
            Some((EgressView::RegisterEnclave(report), rest))
        } else {
            None
        },
        None => None,
    }
}

/// Reads a report: the index of its variant, then its fields.
pub open spec fn parse_egress(bytes: Seq<u8>) -> Parsed<EgressView> {
    if bytes.len() == 0 {
        None
    } else if bytes[0] == 0 {
        parse_signed_dump(bytes.skip(1))
    } else if bytes[0] == 1 {
        parse_signed_snapshot(bytes.skip(1))
    } else if bytes[0] == 2 {
        parse_report(bytes.skip(1))
    } else {
        None
    }
}

/// Reading the bytes of a well-formed report back gives it.
pub proof fn lemma_parse_egress(message: EgressView, rest: Seq<u8>)
    requires
        message.well_formed(),
    ensures
        parse_egress(egress_bytes(message) + rest) == Some((message, rest)),
{
    let all = egress_bytes(message) + rest;
    match message {
        EgressView::EnclaveAccountDump(dump, signature) => {
            let after = signature.bytes@ + rest;
            lemma_join(seq![0u8] + dump_bytes(dump), signature.bytes@, rest);
            lemma_join(seq![0u8], dump_bytes(dump), after);
            assert(all[0] == 0u8);
            assert(all.skip(1) =~= dump_bytes(dump) + after);
            lemma_parse_dump(dump, after);
            lemma_parse_signature(signature, rest);
        },
        EgressView::EnclaveSnapshot(snapshot, signature) => {
            let after = signature.bytes@ + rest;
            lemma_join(seq![1u8] + snapshot_bytes(snapshot), signature.bytes@, rest);
            lemma_join(seq![1u8], snapshot_bytes(snapshot), after);
            assert(all[0] == 1u8);
            assert(all.skip(1) =~= snapshot_bytes(snapshot) + after);
            lemma_parse_snapshot(snapshot, after);
            lemma_parse_signature(signature, rest);
        },
        EgressView::RegisterEnclave(report) => {
            lemma_join(seq![2u8], byte_list_bytes(report), rest);
            assert(all[0] == 2u8);
            assert(all.skip(1) =~= byte_list_bytes(report) + rest);
            lemma_parse_byte_list(report, rest);
        },
    }
}

/// Decoding the bytes of a report gives the report back.
pub proof fn lemma_egress_round_trip(message: EgressView)
    requires
        message.well_formed(),
    ensures
        parse_egress(egress_bytes(message)) == Some((message, Seq::<u8>::empty())),
{
    lemma_parse_egress(message, Seq::empty());
    assert(egress_bytes(message) + Seq::<u8>::empty() =~= egress_bytes(message));
}

impl EgressMessages {
    /// The bytes of the report.
    pub fn encode(&self) -> (bytes: Vec<u8>)
        ensures
            bytes@ == egress_bytes(self@),
    {
        let mut bytes: Vec<u8> = Vec::new();
        match self {
            EgressMessages::EnclaveAccountDump(dump, signature) => {
                bytes.push(0u8);
                put_dump(&mut bytes, dump);
                put_bytes(&mut bytes, signature.bytes.as_slice());
            },
            EgressMessages::EnclaveSnapshot(snapshot, signature) => {
                bytes.push(1u8);
                put_snapshot(&mut bytes, snapshot);
                put_bytes(&mut bytes, signature.bytes.as_slice());
            },
            EgressMessages::RegisterEnclave(report) => {
                bytes.push(2u8);
                put_byte_list(&mut bytes, report_as_slice(report));
            },
        }
        assert(bytes@ =~= egress_bytes(self@));
        bytes
    }

    /// The report that `bytes` start with. Bytes after it are not looked at.
    pub fn decode(bytes: &[u8]) -> (read: Result<EgressMessages, Error>)
        ensures
            read is Ok <==> parse_egress(bytes@) is Some,
            read matches Ok(message) ==> parse_egress(bytes@).unwrap().0 == message@,
            read matches Err(e) ==> e == Error::Malformed,
    {
        if bytes.len() == 0 {
            return Err(Error::Malformed);
        }
        let index = bytes[0];
        let fields = vstd::slice::slice_subrange(bytes, 1, bytes.len());
        assert(fields@ =~= bytes@.skip(1));
        if index == 0 {
            let (dump, rest) = take_dump(fields)?;
            let (signature, _) = take_signature(rest)?;
            Ok(EgressMessages::EnclaveAccountDump(dump, signature))
        } else if index == 1 {
            let (snapshot, rest) = take_snapshot(fields)?;
            let (signature, _) = take_signature(rest)?;
            Ok(EgressMessages::EnclaveSnapshot(snapshot, signature))
        } else if index == 2 {
            let (report, _) = take_byte_list(fields)?;
            match report_try_from(report) {
                Ok(report) => Ok(EgressMessages::RegisterEnclave(report)),
                Err(_) => Err(Error::Malformed),
            }
        } else {
            Err(Error::Malformed)
        }
    }
}

} // verus!
