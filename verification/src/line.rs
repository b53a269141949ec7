//! Encoded line records: one per non-empty source line, plus the data blocks
//! the layout pass appends.
//!
//! Each record has a mathematical model (`LineModel`) over which the layout
//! and patch passes are specified; the executable `Line` views to it.

use vstd::prelude::*;

verus! {

/// What a line record stands for and whether it still needs patching.
#[derive(Debug)]
pub enum LineKind {
    /// An encoded instruction with no unresolved reference.
    Instruction,
    /// A label definition; carries no bytes, only an address.
    Label,
    /// An instruction whose final four bytes await a label address.
    NeedsLabelFixup,
    /// A materialized data block; its first operand token names it.
    Data,
    /// A `#bytes` directive: a named raw data block, loaded from a file.
    DataPointer(String),
    /// An `#image` directive: a named pixel data block, decoded from a file.
    ImagePointer(String),
    /// An instruction whose bytes `[1..5]` await a data-block address.
    NeedsDataFixup,
}

/// The model of a `LineKind`.
pub enum KindModel {
    Instruction,
    Label,
    NeedsLabelFixup,
    Data,
    DataPointer(Seq<char>),
    ImagePointer(Seq<char>),
    NeedsDataFixup,
}

impl View for LineKind {
    type V = KindModel;

    open spec fn view(&self) -> KindModel {
        match self {
            LineKind::Instruction => KindModel::Instruction,
            LineKind::Label => KindModel::Label,
            LineKind::NeedsLabelFixup => KindModel::NeedsLabelFixup,
            LineKind::Data => KindModel::Data,
            LineKind::DataPointer(p) => KindModel::DataPointer(p@),
            LineKind::ImagePointer(p) => KindModel::ImagePointer(p@),
            LineKind::NeedsDataFixup => KindModel::NeedsDataFixup,
        }
    }
}

/// One record of the line stream.
pub struct Line {
    pub kind: LineKind,
    /// The provisional encoded bytes; empty for labels and directives.
    pub bytes: Vec<u8>,
    /// The head token of the source line.
    pub mnemonic: String,
    /// The remaining tokens, kept textually for symbol recovery.
    pub operands: Vec<String>,
    /// Path of the source file this line came from.
    pub file: String,
    /// 1-based line number within that file.
    pub line: usize,
}

/// The model of a `Line`: the same record over sequences.
pub struct LineModel {
    pub kind: KindModel,
    pub bytes: Seq<u8>,
    pub mnemonic: Seq<char>,
    pub operands: Seq<Seq<char>>,
    pub file: Seq<char>,
    pub line: usize,
}

impl View for Line {
    type V = LineModel;

    open spec fn view(&self) -> LineModel {
        LineModel {
            kind: self.kind@,
            bytes: self.bytes@,
            mnemonic: self.mnemonic@,
            operands: self.operands.deep_view(),
            file: self.file@,
            line: self.line,
        }
    }
}

impl DeepView for Line {
    type V = LineModel;

    open spec fn deep_view(&self) -> LineModel {
        self@
    }
}

impl LineModel {
    /// The structural invariant the lexer establishes and layout relies on.
    ///
    /// A label's name is its mnemonic less the trailing colon and it owns no
    /// bytes; a label fixup rewrites the last four bytes and looks its symbol
    /// up under the last operand token; a data fixup rewrites bytes `[1..5]`
    /// and looks its symbol up under the second operand token; a data block
    /// is named by its first operand token; a directive carries its block's
    /// name and path as its two operand tokens.
    pub open spec fn wf(self) -> bool {
        match self.kind {
            KindModel::Label => self.bytes.len() == 0 && self.mnemonic.len() >= 1
                && self.mnemonic.last() == ':',
            KindModel::NeedsLabelFixup => self.bytes.len() >= 4 && self.operands.len() >= 1,
            KindModel::NeedsDataFixup => self.bytes.len() >= 5 && self.operands.len() >= 2,
            KindModel::Data => self.operands.len() >= 1,
            KindModel::DataPointer(_) => self.operands.len() >= 2 && self.bytes.len() == 0,
            KindModel::ImagePointer(_) => self.operands.len() >= 2 && self.bytes.len() == 0,
            _ => true,
        }
    }
}

/// The whole stream is well formed.
pub open spec fn lines_wf(lines: Seq<LineModel>) -> bool {
    forall|i: int| 0 <= i < lines.len() ==> (#[trigger] lines[i]).wf()
}

} // verus!
