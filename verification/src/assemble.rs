//! Assembling an outbound message: a state machine that takes the sections
//! in their wire order, counts what is appended, and writes the header from
//! those counts at the end.

use crate::error::NameError;
use crate::header::MessageHeader;
use crate::name::{name_defect, DomainName};
use crate::record::{
    encode_question, encode_record, question_wire, record_wire, QuestionView, RecordClass,
    RecordType, RecordView, ResourceRecord,
};
use vstd::prelude::*;

verus! {

/// How far the assembly of a message has come.
#[derive(Clone, Copy, Debug, PartialEq, Eq, Structural)]
pub enum Stage {
    Header,
    Question,
    Answer,
    Authority,
    Additional,
}

impl Stage {
    /// The place of the stage in the order of the wire.
    pub open spec fn rank_spec(self) -> u8 {
        match self {
            Stage::Header => 0,
            Stage::Question => 1,
            Stage::Answer => 2,
            Stage::Authority => 3,
            Stage::Additional => 4,
        }
    }

    /// The place of the stage in the order of the wire.
    #[verifier::when_used_as_spec(rank_spec)]
    pub fn rank(self) -> (rank: u8)
        ensures
            rank == self.rank_spec(),
    {
        match self {
            Stage::Header => 0,
            Stage::Question => 1,
            Stage::Answer => 2,
            Stage::Authority => 3,
            Stage::Additional => 4,
        }
    }
}

/// One of the three sections that hold records.
#[derive(Clone, Copy, Debug, PartialEq, Eq, Structural)]
pub enum Section {
    Answer,
    Authority,
    Additional,
}

impl Section {
    /// The stage in which the section is filled.
    pub open spec fn stage_spec(self) -> Stage {
        match self {
            Section::Answer => Stage::Answer,
            Section::Authority => Stage::Authority,
            Section::Additional => Stage::Additional,
        }
    }

    /// The stage in which the section is filled.
    #[verifier::when_used_as_spec(stage_spec)]
    pub fn stage(self) -> (stage: Stage)
        ensures
            stage == self.stage_spec(),
    {
        match self {
            Section::Answer => Stage::Answer,
            Section::Authority => Stage::Authority,
            Section::Additional => Stage::Additional,
        }
    }
}

/// Why an entry was not appended.
#[derive(Clone, Copy, Debug, PartialEq, Eq, Structural)]
pub enum AssembleError {
    /// The assembly has moved past the section the entry belongs to.
    StagePassed,
    /// The section already holds 65535 entries.
    SectionFull,
    /// The record's data is longer than 65535 octets.
    DataTooLong,
    /// The entry's name cannot be encoded.
    Name(NameError),
}

/// A message under assembly: the header, whose counts say what has been
/// appended so far, the encoded entries behind the header, and the stage.
/// The stage only moves forward.
#[derive(Clone, Debug, PartialEq, Eq)]
pub struct Assembler {
    header: MessageHeader,
    body: Vec<u8>,
    stage: Stage,
}

/// A message under assembly as a mathematical value.
pub struct AssemblerView {
    pub header: MessageHeader,
    pub body: Seq<u8>,
    pub stage: Stage,
}

impl View for Assembler {
    type V = AssemblerView;

    closed spec fn view(&self) -> AssemblerView {
        AssemblerView { header: self.header, body: self.body@, stage: self.stage }
    }
}

/// The count of a section in a header.
pub open spec fn section_count(header: MessageHeader, section: Section) -> u16 {
    match section {
        Section::Answer => header.ancount,
        Section::Authority => header.nscount,
        Section::Additional => header.arcount,
    }
}

/// The header with one more entry counted in a section.
pub open spec fn count_one_more(header: MessageHeader, section: Section) -> MessageHeader {
    match section {
        Section::Answer => MessageHeader { ancount: (header.ancount + 1) as u16, ..header },
        Section::Authority => MessageHeader { nscount: (header.nscount + 1) as u16, ..header },
        Section::Additional => MessageHeader { arcount: (header.arcount + 1) as u16, ..header },
    }
}

/// Why a question cannot be appended, if anything stands against it.
pub open spec fn question_refusal(stage: Stage, header: MessageHeader, name: Seq<Seq<u8>>)
    -> Option<AssembleError> {
    if stage.rank() > Stage::Question.rank() {
        Some(AssembleError::StagePassed)
    } else if header.qdcount == u16::MAX {
        Some(AssembleError::SectionFull)
    } else {
        match name_defect(name) {
            Some(e) => Some(AssembleError::Name(e)),
            None => None,
        }
    }
}

/// Why a record cannot be appended to a section, if anything stands against
/// it.
pub open spec fn record_refusal(
    stage: Stage,
    header: MessageHeader,
    section: Section,
    record: RecordView,
) -> Option<AssembleError> {
    if stage.rank() > section.stage().rank() {
        Some(AssembleError::StagePassed)
    } else if section_count(header, section) == u16::MAX {
        Some(AssembleError::SectionFull)
    } else if record.rdata.len() > u16::MAX {
        Some(AssembleError::DataTooLong)
    } else {
        match name_defect(record.owner) {
            Some(e) => Some(AssembleError::Name(e)),
            None => None,
        }
    }
}

impl AssemblerView {
    /// The message as it would go on the wire now.
    pub open spec fn wire(self) -> Seq<u8> {
        self.header.wire() + self.body
    }
}

impl Assembler {
    /// Starts a message with the given header flags and empty sections; the
    /// counts of the header given are not used.
    pub fn new(header: MessageHeader) -> (a: Assembler)
        ensures
            a@.stage == Stage::Header,
            a@.body == Seq::<u8>::empty(),
            a@.header == (MessageHeader {
                qdcount: 0,
                ancount: 0,
                nscount: 0,
                arcount: 0,
                ..header
            }),
    {
        let mut header = header;
        header.qdcount = 0;
        header.ancount = 0;
        header.nscount = 0;
        header.arcount = 0;
        Assembler { header, body: Vec::new(), stage: Stage::Header }
    }

    /// The stage that the assembly has come to.
    pub fn stage(&self) -> (stage: Stage)
        ensures
            stage == self@.stage,
    {
        self.stage
    }

    /// The header, with the counts of what has been appended so far.
    pub fn header(&self) -> (header: MessageHeader)
        ensures
            header == self@.header,
    {
        self.header
    }

    /// The entries appended so far, as they stand behind the header.
    pub fn body(&self) -> (body: &[u8])
        ensures
            body@ == self@.body,
    {
        self.body.as_slice()
    }

    /// Appends a question and moves to the question stage. Refused, with the
    /// message left as it was, once a later stage has been entered, when
    /// the section is full, or when the name cannot be encoded.
    pub fn push_question(&mut self, name: &DomainName, qtype: RecordType, qclass: RecordClass) -> (r:
        Result<(), AssembleError>)
        ensures
            match r {
                Ok(()) => {
                    &&& question_refusal(old(self)@.stage, old(self)@.header, name@) is None
                    &&& final(self)@.stage == Stage::Question
                    &&& final(self)@.header == (MessageHeader {
                        qdcount: (old(self)@.header.qdcount + 1) as u16,
                        ..old(self)@.header
                    })
                    &&& final(self)@.body == old(self)@.body + question_wire(
                        QuestionView { name: name@, qtype, qclass },
                    )
                },
                Err(e) => {
                    &&& question_refusal(old(self)@.stage, old(self)@.header, name@) == Some(e)
                    &&& final(self)@ == old(self)@
                },
            },
    {
        if self.stage.rank() > Stage::Question.rank() {
            return Err(AssembleError::StagePassed);
        }
        if self.header.qdcount == u16::MAX {
            return Err(AssembleError::SectionFull);
        }
        match encode_question(name, qtype, qclass) {
            Err(e) => Err(AssembleError::Name(e)),
            Ok(bytes) => {
                self.body.extend_from_slice(bytes.as_slice());
                self.header.qdcount = self.header.qdcount + 1;
                self.stage = Stage::Question;
                Ok(())
            },
        }
    }

    /// Appends a record to a section and moves to that section's stage.
    /// Refused, with the message left as it was, once a later stage has been
    /// entered, when the section is full, when the data is too long for its
    /// length field, or when the owner cannot be encoded.
    pub fn push_record(&mut self, section: Section, record: &ResourceRecord) -> (r: Result<
        (),
        AssembleError,
    >)
        ensures
            match r {
                Ok(()) => {
                    &&& record_refusal(old(self)@.stage, old(self)@.header, section, record@)
                        is None
                    &&& final(self)@.stage == section.stage()
                    &&& final(self)@.header == count_one_more(old(self)@.header, section)
                    &&& final(self)@.body == old(self)@.body + record_wire(record@)
                },
                Err(e) => {
                    &&& record_refusal(old(self)@.stage, old(self)@.header, section, record@)
                        == Some(e)
                    &&& final(self)@ == old(self)@
                },
            },
    {
        if self.stage.rank() > section.stage().rank() {
            return Err(AssembleError::StagePassed);
        }
        let count = match section {
            Section::Answer => self.header.ancount,
            Section::Authority => self.header.nscount,
            Section::Additional => self.header.arcount,
        };
        if count == u16::MAX {
            return Err(AssembleError::SectionFull);
        }
        if record.rdata.len() > 0xffff {
            return Err(AssembleError::DataTooLong);
        }
        match encode_record(record) {
            Err(e) => Err(AssembleError::Name(e)),
            Ok(bytes) => {
                self.body.extend_from_slice(bytes.as_slice());
                match section {
                    Section::Answer => {
                        self.header.ancount = count + 1;
                    },
                    Section::Authority => {
                        self.header.nscount = count + 1;
                    },
                    Section::Additional => {
                        self.header.arcount = count + 1;
                    },
                }
                self.stage = section.stage();
                Ok(())
            },
        }
    }

    /// Closes the message: the header, with the counts of what was appended,
    /// in front of the entries. The header is well formed whenever the one
    /// given to `new` was, since appending changes its counts only.
    pub fn finish(self) -> (bytes: Vec<u8>)
        requires
            self@.header.wf(),
        ensures
            bytes@ == self@.wire(),
    {
        let mut out = self.header.encode();
        out.extend_from_slice(self.body.as_slice());
        out
    }
}

/// The stage never moves back: after an entry is appended the stage is the
/// entry's own, which is no earlier than the stage before; after a refusal
/// the stage is what it was.
pub proof fn lemma_stage_moves_forward(
    before: AssemblerView,
    section: Section,
    record: RecordView,
    name: Seq<Seq<u8>>,
)
    ensures
        question_refusal(before.stage, before.header, name) is None ==> before.stage.rank()
            <= Stage::Question.rank(),
        record_refusal(before.stage, before.header, section, record) is None
            ==> before.stage.rank() <= section.stage().rank(),
{
}

} // verus!
