//! The `Code` attribute of a method, and the tables that describe its
//! instructions to a debugger.
use crate::attr::{Attribute, decode_named, parse_with};
use crate::class::{Attributes, AttributesView};
use crate::codec::{
    Codec, Decoded, LenWidth, after, decode_blob, decode_table, decoded, encode_blob, encode_table,
    end_of, first_of, lemma_blob_decode_encode, lemma_blob_encode_decode, lemma_holds_split,
    lemma_subrange_join, lemma_table_decode_encode, lemma_table_encode_decode, lemma_table_fits,
    oversize_blob, oversize_table, read_blob, read_table, value_of, views, wf_table, write_blob,
    write_table,
};
use crate::error::{ReadResult, WriteError, WriteResult};
use crate::pool::{CPIndex, ClassInfo, ConstantPool, UTF8Info};
use vstd::prelude::*;

verus! {

/// Reads the instructions of a method: a 32-bit length, then that many
/// bytes.
pub fn read_code(input: &[u8], pos: usize) -> (res: ReadResult<Vec<u8>>)
    ensures
        match res {
            Ok((v, next)) => {
                &&& decode_blob(input@, pos as int, LenWidth::U32) == Decoded::<Seq<u8>>::Ok(
                    (v@, next as int),
                )
                &&& pos <= next <= input@.len()
            },
            Err(e) => decode_blob(input@, pos as int, LenWidth::U32) == Decoded::<Seq<u8>>::Err(
                e,
            ),
        },
{
    read_blob(input, pos, LenWidth::U32)
}

/// Appends the instructions of a method: their length in 32 bits, then the
/// bytes. It fails with the length if 32 bits cannot carry it; `out` is then
/// unchanged.
pub fn write_code(value: &Vec<u8>, out: &mut Vec<u8>) -> (res: WriteResult)
    ensures
        match res {
            Ok(()) => {
                &&& oversize_blob(LenWidth::U32, value@) is None
                &&& final(out)@ == old(out)@ + encode_blob(LenWidth::U32, value@)
            },
            Err(WriteError::TooLarge(n)) => {
                &&& oversize_blob(LenWidth::U32, value@) == Some(n as nat)
                &&& final(out)@ == old(out)@
            },
        },
{
    write_blob(value.as_slice(), LenWidth::U32, out)
}

/// An exception handler: the range of instructions that it covers, where it
/// starts, and the class of the exceptions that it catches.
#[derive(Debug, Clone, PartialEq, Eq, Hash)]
pub struct Exception {
    /// The first instruction that the handler covers.
    pub start_pc: u16,
    /// The end of the range that the handler covers, exclusive.
    pub end_pc: u16,
    /// The first instruction of the handler.
    pub handler_pc: u16,
    /// The class of the exceptions that are caught.
    pub catch_type: CPIndex<ClassInfo>,
}

impl View for Exception {
    type V = Exception;

    open spec fn view(&self) -> Exception {
        *self
    }
}

impl Codec for Exception {
    open spec fn wf(m: Exception) -> bool {
        true
    }

    open spec fn oversize(m: Exception) -> Option<nat> {
        None
    }

    open spec fn encode(m: Exception) -> Seq<u8> {
        u16::encode(m.start_pc)
            + u16::encode(m.end_pc)
            + u16::encode(m.handler_pc)
            + CPIndex::<ClassInfo>::encode(m.catch_type)
    }

    open spec fn decode(s: Seq<u8>, pos: int) -> Decoded<Exception> {
        let start_pc = u16::decode(s, pos);
        let end_pc = after(start_pc, u16::decode(s, end_of(start_pc)));
        let handler_pc = after(end_pc, u16::decode(s, end_of(end_pc)));
        let catch_type = after(handler_pc, CPIndex::<ClassInfo>::decode(s, end_of(handler_pc)));
        match catch_type {
            Err(e) => Err(e),
            Ok((_, end)) => Ok(
                (
                    Exception {
                        start_pc: value_of(start_pc),
                        end_pc: value_of(end_pc),
                        handler_pc: value_of(handler_pc),
                        catch_type: value_of(catch_type),
                    },
                    end,
                ),
            ),
        }
    }

    fn from_bytes(input: &[u8], pos: usize) -> (res: ReadResult<Exception>) {
        let ghost decoded = Self::decode(input@, pos as int);
        let (start_pc, pos) = u16::from_bytes(input, pos)?;
        let (end_pc, pos) = u16::from_bytes(input, pos)?;
        let (handler_pc, pos) = u16::from_bytes(input, pos)?;
        let (catch_type, pos) = CPIndex::<ClassInfo>::from_bytes(input, pos)?;
        assert(decoded is Ok);
        Ok((Exception { start_pc, end_pc, handler_pc, catch_type }, pos))
    }

    fn to_bytes(&self, out: &mut Vec<u8>) -> (res: WriteResult) {
        let ghost encoded = Self::encode(self@);
        let ghost over = Self::oversize(self@);
        self.start_pc.to_bytes(out)?;
        self.end_pc.to_bytes(out)?;
        assert(out@ =~= old(out)@ + (u16::encode(self@.start_pc) + u16::encode(self@.end_pc)));
        self.handler_pc.to_bytes(out)?;
        assert(out@ =~= old(out)@ + (
            u16::encode(self@.start_pc)
            + u16::encode(self@.end_pc)
            + u16::encode(self@.handler_pc)
        ));
        self.catch_type.to_bytes(out)?;
        assert(over is None);
        assert(out@ =~= old(out)@ + encoded);
        Ok(())
    }

    proof fn lemma_fits(m: Exception) {
        assert(Self::oversize(m) is None);
    }

    proof fn lemma_decode_encode(s: Seq<u8>, pos: int, m: Exception) {
        let e1 = u16::encode(m.start_pc);
        let e2 = u16::encode(m.end_pc);
        let e3 = u16::encode(m.handler_pc);
        let e4 = CPIndex::<ClassInfo>::encode(m.catch_type);
        lemma_holds_split(s, pos, e1 + e2 + e3, e4);
        lemma_holds_split(s, pos, e1 + e2, e3);
        lemma_holds_split(s, pos, e1, e2);
        u16::lemma_decode_encode(s, pos, m.start_pc);
        let p1 = pos + e1.len();
        u16::lemma_decode_encode(s, p1, m.end_pc);
        let p2 = p1 + e2.len();
        u16::lemma_decode_encode(s, p2, m.handler_pc);
        let p3 = p2 + e3.len();
        CPIndex::<ClassInfo>::lemma_decode_encode(s, p3, m.catch_type);
        assert(Self::decode(s, pos) == decoded(m, pos + Self::encode(m).len()));
    }

    proof fn lemma_encode_decode(s: Seq<u8>, pos: int) {
        if let Ok((m, next)) = Self::decode(s, pos) {
            let p1 = end_of(u16::decode(s, pos));
            u16::lemma_encode_decode(s, pos);
            let p2 = end_of(u16::decode(s, p1));
            u16::lemma_encode_decode(s, p1);
            lemma_subrange_join(s, pos, p1, p2);
            let p3 = end_of(u16::decode(s, p2));
            u16::lemma_encode_decode(s, p2);
            lemma_subrange_join(s, pos, p2, p3);
            let p4 = end_of(CPIndex::<ClassInfo>::decode(s, p3));
            CPIndex::<ClassInfo>::lemma_encode_decode(s, p3);
            lemma_subrange_join(s, pos, p3, p4);
            assert(Self::wf(m));
            assert(Self::encode(m) == s.subrange(pos, next));
        }
    }
}

/// The `Code` attribute: the instructions of a method and what belongs to them.
#[derive(Debug, Clone, PartialEq, Eq, Hash)]
pub struct Code {
    /// The greatest depth of the operand stack.
    pub max_stack: u16,
    /// The number of local variables.
    pub max_locals: u16,
    /// The instructions.
    pub code: Vec<u8>,
    /// The exception handlers.
    pub exception_table: Vec<Exception>,
    /// The attributes of the code, such as `StackMapTable` and
    /// `LineNumberTable`.
    pub attributes: Attributes,
}

/// The model of a [`Code`]: its fields as mathematical values.
pub struct CodeView {
    pub max_stack: u16,
    pub max_locals: u16,
    pub code: Seq<u8>,
    pub exception_table: Seq<Exception>,
    pub attributes: AttributesView,
}

impl View for Code {
    type V = CodeView;

    open spec fn view(&self) -> CodeView {
        CodeView {
            max_stack: self.max_stack,
            max_locals: self.max_locals,
            code: self.code@,
            exception_table: views(self.exception_table@),
            attributes: self.attributes@,
        }
    }
}

impl Codec for Code {
    open spec fn wf(m: CodeView) -> bool {
        &&& m.code.len() <= LenWidth::U32.limit()
        &&& wf_table::<Exception>(LenWidth::U16, m.exception_table)
        &&& Attributes::wf(m.attributes)
    }

    open spec fn oversize(m: CodeView) -> Option<nat> {
        first_of(
            oversize_blob(LenWidth::U32, m.code),
            first_of(
                oversize_table::<Exception>(LenWidth::U16, m.exception_table),
                Attributes::oversize(m.attributes),
            ),
        )
    }

    open spec fn encode(m: CodeView) -> Seq<u8> {
        u16::encode(m.max_stack)
            + u16::encode(m.max_locals)
            + encode_blob(LenWidth::U32, m.code)
            + encode_table::<Exception>(LenWidth::U16, m.exception_table)
            + Attributes::encode(m.attributes)
    }

    open spec fn decode(s: Seq<u8>, pos: int) -> Decoded<CodeView> {
        let max_stack = u16::decode(s, pos);
        let max_locals = after(max_stack, u16::decode(s, end_of(max_stack)));
        let code = after(max_locals, decode_blob(s, end_of(max_locals), LenWidth::U32));
        let exception_table = after(
            code,
            decode_table::<Exception>(s, end_of(code), LenWidth::U16),
        );
        let attributes = after(exception_table, Attributes::decode(s, end_of(exception_table)));
        match attributes {
            Err(e) => Err(e),
            Ok((_, end)) => Ok(
                (
                    CodeView {
                        max_stack: value_of(max_stack),
                        max_locals: value_of(max_locals),
                        code: value_of(code),
                        exception_table: value_of(exception_table),
                        attributes: value_of(attributes),
                    },
                    end,
                ),
            ),
        }
    }

    fn from_bytes(input: &[u8], pos: usize) -> (res: ReadResult<Code>) {
        let ghost decoded = Self::decode(input@, pos as int);
        let (max_stack, pos) = u16::from_bytes(input, pos)?;
        let (max_locals, pos) = u16::from_bytes(input, pos)?;
        let (code, pos) = read_code(input, pos)?;
        let (exception_table, pos) = read_table(input, pos, LenWidth::U16)?;
        let (attributes, pos) = Attributes::from_bytes(input, pos)?;
        assert(decoded is Ok);
        Ok((Code { max_stack, max_locals, code, exception_table, attributes }, pos))
    }

    fn to_bytes(&self, out: &mut Vec<u8>) -> (res: WriteResult) {
        let ghost encoded = Self::encode(self@);
        let ghost over = Self::oversize(self@);
        self.max_stack.to_bytes(out)?;
        self.max_locals.to_bytes(out)?;
        assert(out@ =~= old(out)@ + (u16::encode(self@.max_stack) + u16::encode(self@.max_locals)));
        write_code(&self.code, out)?;
        assert(out@ =~= old(out)@ + (
            u16::encode(self@.max_stack)
            + u16::encode(self@.max_locals)
            + encode_blob(LenWidth::U32, self@.code)
        ));
        write_table(&self.exception_table, LenWidth::U16, out)?;
        assert(out@ =~= old(out)@ + (
            u16::encode(self@.max_stack)
            + u16::encode(self@.max_locals)
            + encode_blob(LenWidth::U32, self@.code)
            + encode_table::<Exception>(LenWidth::U16, self@.exception_table)
        ));
        self.attributes.to_bytes(out)?;
        assert(over is None);
        assert(out@ =~= old(out)@ + encoded);
        Ok(())
    }

    proof fn lemma_fits(m: CodeView) {
        assert(Self::wf(m));
        lemma_table_fits::<Exception>(LenWidth::U16, m.exception_table);
        Attributes::lemma_fits(m.attributes);
        assert(Self::oversize(m) is None);
    }

    proof fn lemma_decode_encode(s: Seq<u8>, pos: int, m: CodeView) {
        assert(Self::wf(m));
        let e1 = u16::encode(m.max_stack);
        let e2 = u16::encode(m.max_locals);
        let e3 = encode_blob(LenWidth::U32, m.code);
        let e4 = encode_table::<Exception>(LenWidth::U16, m.exception_table);
        let e5 = Attributes::encode(m.attributes);
        lemma_holds_split(s, pos, e1 + e2 + e3 + e4, e5);
        lemma_holds_split(s, pos, e1 + e2 + e3, e4);
        lemma_holds_split(s, pos, e1 + e2, e3);
        lemma_holds_split(s, pos, e1, e2);
        let p1 = pos + e1.len();
        u16::lemma_decode_encode(s, pos, m.max_stack);
        let p2 = p1 + e2.len();
        u16::lemma_decode_encode(s, p1, m.max_locals);
        let p3 = p2 + e3.len();
        lemma_blob_decode_encode(s, p2, LenWidth::U32, m.code);
        let p4 = p3 + e4.len();
        lemma_table_decode_encode::<Exception>(s, p3, LenWidth::U16, m.exception_table);
        let p5 = p4 + e5.len();
        Attributes::lemma_decode_encode(s, p4, m.attributes);
        Self::lemma_decode_fields(s, pos, m, p1, p2, p3, p4, p5);
        assert(p5 == pos + Self::encode(m).len());
        assert(Self::decode(s, pos) == decoded(m, p5));
    }

    proof fn lemma_encode_decode(s: Seq<u8>, pos: int) {
        if let Ok((m, next)) = Self::decode(s, pos) {
            let p1 = end_of(u16::decode(s, pos));
            u16::lemma_encode_decode(s, pos);
            let p2 = end_of(u16::decode(s, p1));
            u16::lemma_encode_decode(s, p1);
            lemma_subrange_join(s, pos, p1, p2);
            let p3 = end_of(decode_blob(s, p2, LenWidth::U32));
            lemma_blob_encode_decode(s, p2, LenWidth::U32);
            lemma_subrange_join(s, pos, p2, p3);
            let p4 = end_of(decode_table::<Exception>(s, p3, LenWidth::U16));
            lemma_table_encode_decode::<Exception>(s, p3, LenWidth::U16);
            lemma_subrange_join(s, pos, p3, p4);
            let p5 = end_of(Attributes::decode(s, p4));
            Attributes::lemma_encode_decode(s, p4);
            lemma_subrange_join(s, pos, p4, p5);
            assert(Self::wf(m));
            assert(Self::encode(m) == s.subrange(pos, next));
        }
    }
}

impl Code {
    /// Where the fields stand one behind the other, the whole stands at the place
    /// of the first.
    proof fn lemma_decode_fields(
        s: Seq<u8>,
        pos: int,
        m: CodeView,
        p1: int,
        p2: int,
        p3: int,
        p4: int,
        p5: int,
    )
        requires
            u16::decode(s, pos) == decoded(m.max_stack, p1),
            u16::decode(s, p1) == decoded(m.max_locals, p2),
            decode_blob(s, p2, LenWidth::U32) == decoded(m.code, p3),
            decode_table::<Exception>(s, p3, LenWidth::U16) == decoded(m.exception_table, p4),
            Attributes::decode(s, p4) == decoded(m.attributes, p5),
        ensures
            Self::decode(s, pos) == decoded(m, p5),
    {
    }
}

impl Attribute for Code {
    open spec fn attribute_name() -> Seq<char> {
        "Code"@
    }

    open spec fn parse(info: Seq<u8>) -> Option<CodeView> {
        parse_with::<Code>(info)
    }

    fn from_attributes(attributes: &Attributes, cp: &ConstantPool) -> (res: Option<Code>) {
        decode_named(attributes, cp, "Code")
    }
}

/// Where the code of a source line starts.
#[derive(Debug, Clone, PartialEq, Eq, Hash)]
pub struct LineNumber {
    /// The instruction at which the line starts.
    pub start_pc: u16,
    /// The number of the line in the source file.
    pub line_number: u16,
}

impl View for LineNumber {
    type V = LineNumber;

    open spec fn view(&self) -> LineNumber {
        *self
    }
}

impl Codec for LineNumber {
    open spec fn wf(m: LineNumber) -> bool {
        true
    }

    open spec fn oversize(m: LineNumber) -> Option<nat> {
        None
    }

    open spec fn encode(m: LineNumber) -> Seq<u8> {
        u16::encode(m.start_pc)
            + u16::encode(m.line_number)
    }

    open spec fn decode(s: Seq<u8>, pos: int) -> Decoded<LineNumber> {
        match u16::decode(s, pos) {
            Err(e) => Err(e),
            Ok((start_pc, p1)) => match u16::decode(s, p1) {
                Err(e) => Err(e),
                Ok((line_number, p2)) => Ok((LineNumber { start_pc, line_number }, p2)),
            },
        }
    }

    fn from_bytes(input: &[u8], pos: usize) -> (res: ReadResult<LineNumber>) {
        let ghost decoded = Self::decode(input@, pos as int);
        let (start_pc, pos) = u16::from_bytes(input, pos)?;
        let (line_number, pos) = u16::from_bytes(input, pos)?;
        assert(decoded is Ok);
        Ok((LineNumber { start_pc, line_number }, pos))
    }

    fn to_bytes(&self, out: &mut Vec<u8>) -> (res: WriteResult) {
        let ghost encoded = Self::encode(self@);
        let ghost over = Self::oversize(self@);
        self.start_pc.to_bytes(out)?;
        self.line_number.to_bytes(out)?;
        assert(over is None);
        assert(out@ =~= old(out)@ + encoded);
        Ok(())
    }

    proof fn lemma_fits(m: LineNumber) {
        assert(Self::oversize(m) is None);
    }

    proof fn lemma_decode_encode(s: Seq<u8>, pos: int, m: LineNumber) {
        let e1 = u16::encode(m.start_pc);
        let e2 = u16::encode(m.line_number);
        lemma_holds_split(s, pos, e1, e2);
        u16::lemma_decode_encode(s, pos, m.start_pc);
        let p1 = pos + e1.len();
        u16::lemma_decode_encode(s, p1, m.line_number);
        assert(Self::decode(s, pos) == decoded(m, pos + Self::encode(m).len()));
    }

    proof fn lemma_encode_decode(s: Seq<u8>, pos: int) {
        if let Ok((m, next)) = Self::decode(s, pos) {
            let p1 = end_of(u16::decode(s, pos));
            u16::lemma_encode_decode(s, pos);
            let p2 = end_of(u16::decode(s, p1));
            u16::lemma_encode_decode(s, p1);
            lemma_subrange_join(s, pos, p1, p2);
            assert(Self::wf(m));
            assert(Self::encode(m) == s.subrange(pos, next));
        }
    }
}

/// The `LineNumberTable` attribute: the source lines of the instructions.
#[derive(Debug, Clone, PartialEq, Eq, Hash)]
pub struct LineNumberTable {
    /// The entries of the table.
    pub table: Vec<LineNumber>,
}

/// The model of a [`LineNumberTable`]: its fields as mathematical values.
pub struct LineNumberTableView {
    pub table: Seq<LineNumber>,
}

impl View for LineNumberTable {
    type V = LineNumberTableView;

    open spec fn view(&self) -> LineNumberTableView {
        LineNumberTableView {
            table: views(self.table@),
        }
    }
}

impl Codec for LineNumberTable {
    open spec fn wf(m: LineNumberTableView) -> bool {
        wf_table::<LineNumber>(LenWidth::U16, m.table)
    }

    open spec fn oversize(m: LineNumberTableView) -> Option<nat> {
        oversize_table::<LineNumber>(LenWidth::U16, m.table)
    }

    open spec fn encode(m: LineNumberTableView) -> Seq<u8> {
        encode_table::<LineNumber>(LenWidth::U16, m.table)
    }

    open spec fn decode(s: Seq<u8>, pos: int) -> Decoded<LineNumberTableView> {
        match decode_table::<LineNumber>(s, pos, LenWidth::U16) {
            Err(e) => Err(e),
            Ok((table, p1)) => Ok((LineNumberTableView { table }, p1)),
        }
    }

    fn from_bytes(input: &[u8], pos: usize) -> (res: ReadResult<LineNumberTable>) {
        let ghost decoded = Self::decode(input@, pos as int);
        let (table, pos) = read_table(input, pos, LenWidth::U16)?;
        assert(decoded is Ok);
        Ok((LineNumberTable { table }, pos))
    }

    fn to_bytes(&self, out: &mut Vec<u8>) -> (res: WriteResult) {
        let ghost encoded = Self::encode(self@);
        let ghost over = Self::oversize(self@);
        write_table(&self.table, LenWidth::U16, out)?;
        assert(over is None);
        assert(out@ =~= old(out)@ + encoded);
        Ok(())
    }

    proof fn lemma_fits(m: LineNumberTableView) {
        assert(Self::wf(m));
        lemma_table_fits::<LineNumber>(LenWidth::U16, m.table);
        assert(Self::oversize(m) is None);
    }

    proof fn lemma_decode_encode(s: Seq<u8>, pos: int, m: LineNumberTableView) {
        assert(Self::wf(m));
        let e1 = encode_table::<LineNumber>(LenWidth::U16, m.table);
        lemma_table_decode_encode::<LineNumber>(s, pos, LenWidth::U16, m.table);
        assert(Self::decode(s, pos) == decoded(m, pos + Self::encode(m).len()));
    }

    proof fn lemma_encode_decode(s: Seq<u8>, pos: int) {
        if let Ok((m, next)) = Self::decode(s, pos) {
            let p1 = end_of(decode_table::<LineNumber>(s, pos, LenWidth::U16));
            lemma_table_encode_decode::<LineNumber>(s, pos, LenWidth::U16);
            assert(Self::wf(m));
            assert(Self::encode(m) == s.subrange(pos, next));
        }
    }
}

impl Attribute for LineNumberTable {
    open spec fn attribute_name() -> Seq<char> {
        "LineNumberTable"@
    }

    open spec fn parse(info: Seq<u8>) -> Option<LineNumberTableView> {
        parse_with::<LineNumberTable>(info)
    }

    fn from_attributes(
        attributes: &Attributes,
        cp: &ConstantPool,
    ) -> (res: Option<LineNumberTable>) {
        decode_named(attributes, cp, "LineNumberTable")
    }
}

/// A local variable and the range of instructions in which it has a value.
#[derive(Debug, Clone, PartialEq, Eq, Hash)]
pub struct LocalVariable {
    /// The first instruction of the range.
    pub start_pc: u16,
    /// The length of the range.
    pub length: u16,
    /// The name of the variable.
    pub name_index: CPIndex<UTF8Info>,
    /// The descriptor of the variable.
    pub descriptor_index: CPIndex<UTF8Info>,
    /// The slot of the variable in the frame.
    pub index: u16,
}

impl View for LocalVariable {
    type V = LocalVariable;

    open spec fn view(&self) -> LocalVariable {
        *self
    }
}

impl Codec for LocalVariable {
    open spec fn wf(m: LocalVariable) -> bool {
        true
    }

    open spec fn oversize(m: LocalVariable) -> Option<nat> {
        None
    }

    open spec fn encode(m: LocalVariable) -> Seq<u8> {
        u16::encode(m.start_pc)
            + u16::encode(m.length)
            + CPIndex::<UTF8Info>::encode(m.name_index)
            + CPIndex::<UTF8Info>::encode(m.descriptor_index)
            + u16::encode(m.index)
    }

    open spec fn decode(s: Seq<u8>, pos: int) -> Decoded<LocalVariable> {
        let start_pc = u16::decode(s, pos);
        let length = after(start_pc, u16::decode(s, end_of(start_pc)));
        let name_index = after(length, CPIndex::<UTF8Info>::decode(s, end_of(length)));
        let descriptor_index = after(
            name_index,
            CPIndex::<UTF8Info>::decode(s, end_of(name_index)),
        );
        let index = after(descriptor_index, u16::decode(s, end_of(descriptor_index)));
        match index {
            Err(e) => Err(e),
            Ok((_, end)) => Ok(
                (
                    LocalVariable {
                        start_pc: value_of(start_pc),
                        length: value_of(length),
                        name_index: value_of(name_index),
                        descriptor_index: value_of(descriptor_index),
                        index: value_of(index),
                    },
                    end,
                ),
            ),
        }
    }

    fn from_bytes(input: &[u8], pos: usize) -> (res: ReadResult<LocalVariable>) {
        let ghost decoded = Self::decode(input@, pos as int);
        let (start_pc, pos) = u16::from_bytes(input, pos)?;
        let (length, pos) = u16::from_bytes(input, pos)?;
        let (name_index, pos) = CPIndex::<UTF8Info>::from_bytes(input, pos)?;
        let (descriptor_index, pos) = CPIndex::<UTF8Info>::from_bytes(input, pos)?;
        let (index, pos) = u16::from_bytes(input, pos)?;
        assert(decoded is Ok);
        Ok((LocalVariable { start_pc, length, name_index, descriptor_index, index }, pos))
    }

    fn to_bytes(&self, out: &mut Vec<u8>) -> (res: WriteResult) {
        let ghost encoded = Self::encode(self@);
        let ghost over = Self::oversize(self@);
        self.start_pc.to_bytes(out)?;
        self.length.to_bytes(out)?;
        assert(out@ =~= old(out)@ + (u16::encode(self@.start_pc) + u16::encode(self@.length)));
        self.name_index.to_bytes(out)?;
        assert(out@ =~= old(out)@ + (
            u16::encode(self@.start_pc)
            + u16::encode(self@.length)
            + CPIndex::<UTF8Info>::encode(self@.name_index)
        ));
        self.descriptor_index.to_bytes(out)?;
        assert(out@ =~= old(out)@ + (
            u16::encode(self@.start_pc)
            + u16::encode(self@.length)
            + CPIndex::<UTF8Info>::encode(self@.name_index)
            + CPIndex::<UTF8Info>::encode(self@.descriptor_index)
        ));
        self.index.to_bytes(out)?;
        assert(over is None);
        assert(out@ =~= old(out)@ + encoded);
        Ok(())
    }

    proof fn lemma_fits(m: LocalVariable) {
        assert(Self::oversize(m) is None);
    }

    proof fn lemma_decode_encode(s: Seq<u8>, pos: int, m: LocalVariable) {
        let e1 = u16::encode(m.start_pc);
        let e2 = u16::encode(m.length);
        let e3 = CPIndex::<UTF8Info>::encode(m.name_index);
        let e4 = CPIndex::<UTF8Info>::encode(m.descriptor_index);
        let e5 = u16::encode(m.index);
        lemma_holds_split(s, pos, e1 + e2 + e3 + e4, e5);
        lemma_holds_split(s, pos, e1 + e2 + e3, e4);
        lemma_holds_split(s, pos, e1 + e2, e3);
        lemma_holds_split(s, pos, e1, e2);
        let p1 = pos + e1.len();
        u16::lemma_decode_encode(s, pos, m.start_pc);
        let p2 = p1 + e2.len();
        u16::lemma_decode_encode(s, p1, m.length);
        let p3 = p2 + e3.len();
        CPIndex::<UTF8Info>::lemma_decode_encode(s, p2, m.name_index);
        let p4 = p3 + e4.len();
        CPIndex::<UTF8Info>::lemma_decode_encode(s, p3, m.descriptor_index);
        let p5 = p4 + e5.len();
        u16::lemma_decode_encode(s, p4, m.index);
        Self::lemma_decode_fields(s, pos, m, p1, p2, p3, p4, p5);
        assert(p5 == pos + Self::encode(m).len());
        assert(Self::decode(s, pos) == decoded(m, p5));
    }

    proof fn lemma_encode_decode(s: Seq<u8>, pos: int) {
        if let Ok((m, next)) = Self::decode(s, pos) {
            let p1 = end_of(u16::decode(s, pos));
            u16::lemma_encode_decode(s, pos);
            let p2 = end_of(u16::decode(s, p1));
            u16::lemma_encode_decode(s, p1);
            lemma_subrange_join(s, pos, p1, p2);
            let p3 = end_of(CPIndex::<UTF8Info>::decode(s, p2));
            CPIndex::<UTF8Info>::lemma_encode_decode(s, p2);
            lemma_subrange_join(s, pos, p2, p3);
            let p4 = end_of(CPIndex::<UTF8Info>::decode(s, p3));
            CPIndex::<UTF8Info>::lemma_encode_decode(s, p3);
            lemma_subrange_join(s, pos, p3, p4);
            let p5 = end_of(u16::decode(s, p4));
            u16::lemma_encode_decode(s, p4);
            lemma_subrange_join(s, pos, p4, p5);
            assert(Self::wf(m));
            assert(Self::encode(m) == s.subrange(pos, next));
        }
    }
}

impl LocalVariable {
    /// Where the fields stand one behind the other, the whole stands at the place
    /// of the first.
    proof fn lemma_decode_fields(
        s: Seq<u8>,
        pos: int,
        m: LocalVariable,
        p1: int,
        p2: int,
        p3: int,
        p4: int,
        p5: int,
    )
        requires
            u16::decode(s, pos) == decoded(m.start_pc, p1),
            u16::decode(s, p1) == decoded(m.length, p2),
            CPIndex::<UTF8Info>::decode(s, p2) == decoded(m.name_index, p3),
            CPIndex::<UTF8Info>::decode(s, p3) == decoded(m.descriptor_index, p4),
            u16::decode(s, p4) == decoded(m.index, p5),
        ensures
            Self::decode(s, pos) == decoded(m, p5),
    {
    }
}

/// The `LocalVariableTable` attribute: the local variables of a method.
#[derive(Debug, Clone, PartialEq, Eq, Hash)]
pub struct LocalVariableTable {
    /// The entries of the table.
    pub table: Vec<LocalVariable>,
}

/// The model of a [`LocalVariableTable`]: its fields as mathematical values.
pub struct LocalVariableTableView {
    pub table: Seq<LocalVariable>,
}

impl View for LocalVariableTable {
    type V = LocalVariableTableView;

    open spec fn view(&self) -> LocalVariableTableView {
        LocalVariableTableView {
            table: views(self.table@),
        }
    }
}

impl Codec for LocalVariableTable {
    open spec fn wf(m: LocalVariableTableView) -> bool {
        wf_table::<LocalVariable>(LenWidth::U16, m.table)
    }

    open spec fn oversize(m: LocalVariableTableView) -> Option<nat> {
        oversize_table::<LocalVariable>(LenWidth::U16, m.table)
    }

    open spec fn encode(m: LocalVariableTableView) -> Seq<u8> {
        encode_table::<LocalVariable>(LenWidth::U16, m.table)
    }

    open spec fn decode(s: Seq<u8>, pos: int) -> Decoded<LocalVariableTableView> {
        match decode_table::<LocalVariable>(s, pos, LenWidth::U16) {
            Err(e) => Err(e),
            Ok((table, p1)) => Ok((LocalVariableTableView { table }, p1)),
        }
    }

    fn from_bytes(input: &[u8], pos: usize) -> (res: ReadResult<LocalVariableTable>) {
        let ghost decoded = Self::decode(input@, pos as int);
        let (table, pos) = read_table(input, pos, LenWidth::U16)?;
        assert(decoded is Ok);
        Ok((LocalVariableTable { table }, pos))
    }

    fn to_bytes(&self, out: &mut Vec<u8>) -> (res: WriteResult) {
        let ghost encoded = Self::encode(self@);
        let ghost over = Self::oversize(self@);
        write_table(&self.table, LenWidth::U16, out)?;
        assert(over is None);
        assert(out@ =~= old(out)@ + encoded);
        Ok(())
    }

    proof fn lemma_fits(m: LocalVariableTableView) {
        assert(Self::wf(m));
        lemma_table_fits::<LocalVariable>(LenWidth::U16, m.table);
        assert(Self::oversize(m) is None);
    }

    proof fn lemma_decode_encode(s: Seq<u8>, pos: int, m: LocalVariableTableView) {
        assert(Self::wf(m));
        let e1 = encode_table::<LocalVariable>(LenWidth::U16, m.table);
        lemma_table_decode_encode::<LocalVariable>(s, pos, LenWidth::U16, m.table);
        assert(Self::decode(s, pos) == decoded(m, pos + Self::encode(m).len()));
    }

    proof fn lemma_encode_decode(s: Seq<u8>, pos: int) {
        if let Ok((m, next)) = Self::decode(s, pos) {
            let p1 = end_of(decode_table::<LocalVariable>(s, pos, LenWidth::U16));
            lemma_table_encode_decode::<LocalVariable>(s, pos, LenWidth::U16);
            assert(Self::wf(m));
            assert(Self::encode(m) == s.subrange(pos, next));
        }
    }
}

impl Attribute for LocalVariableTable {
    open spec fn attribute_name() -> Seq<char> {
        "LocalVariableTable"@
    }

    open spec fn parse(info: Seq<u8>) -> Option<LocalVariableTableView> {
        parse_with::<LocalVariableTable>(info)
    }

    fn from_attributes(
        attributes: &Attributes,
        cp: &ConstantPool,
    ) -> (res: Option<LocalVariableTable>) {
        decode_named(attributes, cp, "LocalVariableTable")
    }
}

/// A local variable of generic type and the range of instructions in which it
/// has a value.
#[derive(Debug, Clone, PartialEq, Eq, Hash)]
pub struct LocalVariableType {
    /// The first instruction of the range.
    pub start_pc: u16,
    /// The length of the range.
    pub length: u16,
    /// The name of the variable.
    pub name_index: CPIndex<UTF8Info>,
    /// The signature of the type of the variable.
    pub signature_index: CPIndex<UTF8Info>,
    /// The slot of the variable in the frame.
    pub index: u16,
}

impl View for LocalVariableType {
    type V = LocalVariableType;

    open spec fn view(&self) -> LocalVariableType {
        *self
    }
}

impl Codec for LocalVariableType {
    open spec fn wf(m: LocalVariableType) -> bool {
        true
    }

    open spec fn oversize(m: LocalVariableType) -> Option<nat> {
        None
    }

    open spec fn encode(m: LocalVariableType) -> Seq<u8> {
        u16::encode(m.start_pc)
            + u16::encode(m.length)
            + CPIndex::<UTF8Info>::encode(m.name_index)
            + CPIndex::<UTF8Info>::encode(m.signature_index)
            + u16::encode(m.index)
    }

    open spec fn decode(s: Seq<u8>, pos: int) -> Decoded<LocalVariableType> {
        let start_pc = u16::decode(s, pos);
        let length = after(start_pc, u16::decode(s, end_of(start_pc)));
        let name_index = after(length, CPIndex::<UTF8Info>::decode(s, end_of(length)));
        let signature_index = after(name_index, CPIndex::<UTF8Info>::decode(s, end_of(name_index)));
        let index = after(signature_index, u16::decode(s, end_of(signature_index)));
        match index {
            Err(e) => Err(e),
            Ok((_, end)) => Ok(
                (
                    LocalVariableType {
                        start_pc: value_of(start_pc),
                        length: value_of(length),
                        name_index: value_of(name_index),
                        signature_index: value_of(signature_index),
                        index: value_of(index),
                    },
                    end,
                ),
            ),
        }
    }

    fn from_bytes(input: &[u8], pos: usize) -> (res: ReadResult<LocalVariableType>) {
        let ghost decoded = Self::decode(input@, pos as int);
        let (start_pc, pos) = u16::from_bytes(input, pos)?;
        let (length, pos) = u16::from_bytes(input, pos)?;
        let (name_index, pos) = CPIndex::<UTF8Info>::from_bytes(input, pos)?;
        let (signature_index, pos) = CPIndex::<UTF8Info>::from_bytes(input, pos)?;
        let (index, pos) = u16::from_bytes(input, pos)?;
        assert(decoded is Ok);
        Ok((LocalVariableType { start_pc, length, name_index, signature_index, index }, pos))
    }

    fn to_bytes(&self, out: &mut Vec<u8>) -> (res: WriteResult) {
        let ghost encoded = Self::encode(self@);
        let ghost over = Self::oversize(self@);
        self.start_pc.to_bytes(out)?;
        self.length.to_bytes(out)?;
        assert(out@ =~= old(out)@ + (u16::encode(self@.start_pc) + u16::encode(self@.length)));
        self.name_index.to_bytes(out)?;
        assert(out@ =~= old(out)@ + (
            u16::encode(self@.start_pc)
            + u16::encode(self@.length)
            + CPIndex::<UTF8Info>::encode(self@.name_index)
        ));
        self.signature_index.to_bytes(out)?;
        assert(out@ =~= old(out)@ + (
            u16::encode(self@.start_pc)
            + u16::encode(self@.length)
            + CPIndex::<UTF8Info>::encode(self@.name_index)
            + CPIndex::<UTF8Info>::encode(self@.signature_index)
        ));
        self.index.to_bytes(out)?;
        assert(over is None);
        assert(out@ =~= old(out)@ + encoded);
        Ok(())
    }

    proof fn lemma_fits(m: LocalVariableType) {
        assert(Self::oversize(m) is None);
    }

    proof fn lemma_decode_encode(s: Seq<u8>, pos: int, m: LocalVariableType) {
        let e1 = u16::encode(m.start_pc);
        let e2 = u16::encode(m.length);
        let e3 = CPIndex::<UTF8Info>::encode(m.name_index);
        let e4 = CPIndex::<UTF8Info>::encode(m.signature_index);
        let e5 = u16::encode(m.index);
        lemma_holds_split(s, pos, e1 + e2 + e3 + e4, e5);
        lemma_holds_split(s, pos, e1 + e2 + e3, e4);
        lemma_holds_split(s, pos, e1 + e2, e3);
        lemma_holds_split(s, pos, e1, e2);
        let p1 = pos + e1.len();
        u16::lemma_decode_encode(s, pos, m.start_pc);
        let p2 = p1 + e2.len();
        u16::lemma_decode_encode(s, p1, m.length);
        let p3 = p2 + e3.len();
        CPIndex::<UTF8Info>::lemma_decode_encode(s, p2, m.name_index);
        let p4 = p3 + e4.len();
        CPIndex::<UTF8Info>::lemma_decode_encode(s, p3, m.signature_index);
        let p5 = p4 + e5.len();
        u16::lemma_decode_encode(s, p4, m.index);
        Self::lemma_decode_fields(s, pos, m, p1, p2, p3, p4, p5);
        assert(p5 == pos + Self::encode(m).len());
        assert(Self::decode(s, pos) == decoded(m, p5));
    }

    proof fn lemma_encode_decode(s: Seq<u8>, pos: int) {
        if let Ok((m, next)) = Self::decode(s, pos) {
            let p1 = end_of(u16::decode(s, pos));
            u16::lemma_encode_decode(s, pos);
            let p2 = end_of(u16::decode(s, p1));
            u16::lemma_encode_decode(s, p1);
            lemma_subrange_join(s, pos, p1, p2);
            let p3 = end_of(CPIndex::<UTF8Info>::decode(s, p2));
            CPIndex::<UTF8Info>::lemma_encode_decode(s, p2);
            lemma_subrange_join(s, pos, p2, p3);
            let p4 = end_of(CPIndex::<UTF8Info>::decode(s, p3));
            CPIndex::<UTF8Info>::lemma_encode_decode(s, p3);
            lemma_subrange_join(s, pos, p3, p4);
            let p5 = end_of(u16::decode(s, p4));
            u16::lemma_encode_decode(s, p4);
            lemma_subrange_join(s, pos, p4, p5);
            assert(Self::wf(m));
            assert(Self::encode(m) == s.subrange(pos, next));
        }
    }
}

impl LocalVariableType {
    /// Where the fields stand one behind the other, the whole stands at the place
    /// of the first.
    proof fn lemma_decode_fields(
        s: Seq<u8>,
        pos: int,
        m: LocalVariableType,
        p1: int,
        p2: int,
        p3: int,
        p4: int,
        p5: int,
    )
        requires
            u16::decode(s, pos) == decoded(m.start_pc, p1),
            u16::decode(s, p1) == decoded(m.length, p2),
            CPIndex::<UTF8Info>::decode(s, p2) == decoded(m.name_index, p3),
            CPIndex::<UTF8Info>::decode(s, p3) == decoded(m.signature_index, p4),
            u16::decode(s, p4) == decoded(m.index, p5),
        ensures
            Self::decode(s, pos) == decoded(m, p5),
    {
    }
}

/// The `LocalVariableTypeTable` attribute: the local variables of generic type.
#[derive(Debug, Clone, PartialEq, Eq, Hash)]
pub struct LocalVariableTypeTable {
    /// The entries of the table.
    pub table: Vec<LocalVariableType>,
}

/// The model of a [`LocalVariableTypeTable`]: its fields as mathematical values.
pub struct LocalVariableTypeTableView {
    pub table: Seq<LocalVariableType>,
}

impl View for LocalVariableTypeTable {
    type V = LocalVariableTypeTableView;

    open spec fn view(&self) -> LocalVariableTypeTableView {
        LocalVariableTypeTableView {
            table: views(self.table@),
        }
    }
}

impl Codec for LocalVariableTypeTable {
    open spec fn wf(m: LocalVariableTypeTableView) -> bool {
        wf_table::<LocalVariableType>(LenWidth::U16, m.table)
    }

    open spec fn oversize(m: LocalVariableTypeTableView) -> Option<nat> {
        oversize_table::<LocalVariableType>(LenWidth::U16, m.table)
    }

    open spec fn encode(m: LocalVariableTypeTableView) -> Seq<u8> {
        encode_table::<LocalVariableType>(LenWidth::U16, m.table)
    }

    open spec fn decode(s: Seq<u8>, pos: int) -> Decoded<LocalVariableTypeTableView> {
        match decode_table::<LocalVariableType>(s, pos, LenWidth::U16) {
            Err(e) => Err(e),
            Ok((table, p1)) => Ok((LocalVariableTypeTableView { table }, p1)),
        }
    }

    fn from_bytes(input: &[u8], pos: usize) -> (res: ReadResult<LocalVariableTypeTable>) {
        let ghost decoded = Self::decode(input@, pos as int);
        let (table, pos) = read_table(input, pos, LenWidth::U16)?;
        assert(decoded is Ok);
        Ok((LocalVariableTypeTable { table }, pos))
    }

    fn to_bytes(&self, out: &mut Vec<u8>) -> (res: WriteResult) {
        let ghost encoded = Self::encode(self@);
        let ghost over = Self::oversize(self@);
        write_table(&self.table, LenWidth::U16, out)?;
        assert(over is None);
        assert(out@ =~= old(out)@ + encoded);
        Ok(())
    }

    proof fn lemma_fits(m: LocalVariableTypeTableView) {
        assert(Self::wf(m));
        lemma_table_fits::<LocalVariableType>(LenWidth::U16, m.table);
        assert(Self::oversize(m) is None);
    }

    proof fn lemma_decode_encode(s: Seq<u8>, pos: int, m: LocalVariableTypeTableView) {
        assert(Self::wf(m));
        let e1 = encode_table::<LocalVariableType>(LenWidth::U16, m.table);
        lemma_table_decode_encode::<LocalVariableType>(s, pos, LenWidth::U16, m.table);
        assert(Self::decode(s, pos) == decoded(m, pos + Self::encode(m).len()));
    }

    proof fn lemma_encode_decode(s: Seq<u8>, pos: int) {
        if let Ok((m, next)) = Self::decode(s, pos) {
            let p1 = end_of(decode_table::<LocalVariableType>(s, pos, LenWidth::U16));
            lemma_table_encode_decode::<LocalVariableType>(s, pos, LenWidth::U16);
            assert(Self::wf(m));
            assert(Self::encode(m) == s.subrange(pos, next));
        }
    }
}

impl Attribute for LocalVariableTypeTable {
    open spec fn attribute_name() -> Seq<char> {
        "LocalVariableTypeTable"@
    }

    open spec fn parse(info: Seq<u8>) -> Option<LocalVariableTypeTableView> {
        parse_with::<LocalVariableTypeTable>(info)
    }

    fn from_attributes(
        attributes: &Attributes,
        cp: &ConstantPool,
    ) -> (res: Option<LocalVariableTypeTable>) {
        decode_named(attributes, cp, "LocalVariableTypeTable")
    }
}

} // verus!
