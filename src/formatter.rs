//! The event-driven formatter. Each serializer event either appends bytes to
//! the output, appends them to the current member of the innermost open
//! object, or opens and closes objects.
use vstd::prelude::*;
use vstd::string::StringSliceAdditionalSpecFns;

use crate::frame::{member_append, object_text, MemberView, ObjectStackFrame};
use crate::text::{
    decimal_text, escape_bytes, escape_text, format_signed, format_unsigned,
    is_canonical_number, is_canonical_number_text, push_all, CharEscape, QUOTE,
};

verus! {

pub const OPEN_BRACKET: u8 = 0x5b;
pub const CLOSE_BRACKET: u8 = 0x5d;
pub const ARRAY_COMMA: u8 = 0x2c;

/// Why a formatting session failed.
#[derive(Clone, Copy, Debug, PartialEq, Eq, Structural)]
pub enum FormatError {
    /// A floating-point value was written.
    UnsupportedFloat,
    /// Number text outside the canonical number grammar was written.
    InvalidNumberLiteral,
    /// An event asked for an object or member that is not open.
    ProtocolViolation,
}

/// The bytes of `null`.
pub open spec fn null_text() -> Seq<u8> {
    seq![0x6eu8, 0x75u8, 0x6cu8, 0x6cu8]
}

/// The bytes of `true` or `false`.
pub open spec fn bool_text(b: bool) -> Seq<u8> {
    if b {
        seq![0x74u8, 0x72u8, 0x75u8, 0x65u8]
    } else {
        seq![0x66u8, 0x61u8, 0x6cu8, 0x73u8, 0x65u8]
    }
}

/// Bytes can be placed: either no object is open, or the innermost open
/// object has a current member.
pub open spec fn can_route(stack: Seq<Seq<MemberView>>) -> bool {
    stack.len() == 0 || stack.last().len() > 0
}

/// The stack after `bytes` went to the current member of the innermost
/// open object.
pub open spec fn append_to_current(stack: Seq<Seq<MemberView>>, bytes: Seq<u8>) -> Seq<
    Seq<MemberView>,
> {
    let top = stack.last();
    stack.update(stack.len() - 1, top.update(top.len() - 1, member_append(top.last(), bytes)))
}

/// One write of `bytes`, from stack `stack` and output `out` to `stack2` and
/// `out2` with result `r`: straight to the output when no object is open, to
/// the current member otherwise, and a protocol violation that changes
/// nothing when an object is open without a member.
pub open spec fn routed(
    stack: Seq<Seq<MemberView>>,
    out: Seq<u8>,
    bytes: Seq<u8>,
    stack2: Seq<Seq<MemberView>>,
    out2: Seq<u8>,
    r: Result<(), FormatError>,
) -> bool {
    if !can_route(stack) {
        r == Err::<(), FormatError>(FormatError::ProtocolViolation) && stack2 == stack && out2
            == out
    } else if stack.len() == 0 {
        r == Ok::<(), FormatError>(()) && stack2 == stack && out2 == out + bytes
    } else {
        r == Ok::<(), FormatError>(()) && stack2 == append_to_current(stack, bytes) && out2 == out
    }
}

/// Closing the innermost object: it is taken off the stack, sorted,
/// rendered and written as one piece to what encloses it. With no open
/// object, or an enclosing object without a current member, nothing changes
/// and the result is a protocol violation.
pub open spec fn object_closed(
    stack: Seq<Seq<MemberView>>,
    out: Seq<u8>,
    stack2: Seq<Seq<MemberView>>,
    out2: Seq<u8>,
    r: Result<(), FormatError>,
) -> bool {
    if stack.len() == 0 || !can_route(stack.drop_last()) {
        r == Err::<(), FormatError>(FormatError::ProtocolViolation) && stack2 == stack && out2
            == out
    } else {
        routed(stack.drop_last(), out, object_text(stack.last()), stack2, out2, r)
    }
}

/// Nothing changes and the result is `r`.
pub open spec fn unchanged(
    stack: Seq<Seq<MemberView>>,
    out: Seq<u8>,
    stack2: Seq<Seq<MemberView>>,
    out2: Seq<u8>,
    r: Result<(), FormatError>,
    expected: Result<(), FormatError>,
) -> bool {
    r == expected && stack2 == stack && out2 == out
}

/// Closing an object is local to it: its sorted text goes to the output or
/// to the current member of the enclosing object, while every other open
/// object and every other member of the enclosing object keep their
/// contents and their order.
pub proof fn lemma_close_is_local(
    stack: Seq<Seq<MemberView>>,
    out: Seq<u8>,
    stack2: Seq<Seq<MemberView>>,
    out2: Seq<u8>,
    r: Result<(), FormatError>,
)
    requires
        object_closed(stack, out, stack2, out2, r),
        r is Ok,
    ensures
        stack2.len() == stack.len() - 1,
        stack.len() == 1 ==> out2 == out + object_text(stack.last()),
        stack.len() >= 2 ==> {
            &&& out2 == out
            &&& forall|i: int| 0 <= i < stack.len() - 2 ==> #[trigger] stack2[i] == stack[i]
            &&& stack2.last().len() == stack[stack.len() - 2].len()
            &&& forall|k: int|
                0 <= k < stack2.last().len() - 1 ==> #[trigger] stack2.last()[k] == stack[stack.len()
                    - 2][k]
            &&& stack2.last().last() == member_append(
                stack[stack.len() - 2].last(),
                object_text(stack.last()),
            )
        },
{
    let parent = stack.drop_last();
    if stack.len() >= 2 {
        assert(stack2 == append_to_current(parent, object_text(stack.last())));
        assert(parent.last() == stack[stack.len() - 2]);
    }
}

/// A canonical JSON formatter. Its view is the stack of open objects,
/// outermost first, each as the members it has received so far.
pub struct CanonicalFormatter {
    object_stack: Vec<ObjectStackFrame>,
}

impl View for CanonicalFormatter {
    type V = Seq<Seq<MemberView>>;

    closed spec fn view(&self) -> Seq<Seq<MemberView>> {
        self.object_stack@.map_values(|f: ObjectStackFrame| f@)
    }
}

impl Default for CanonicalFormatter {
    fn default() -> (r: Self)
        ensures
            r@ == Seq::<Seq<MemberView>>::empty(),
    {
        CanonicalFormatter::new()
    }
}

impl CanonicalFormatter {
    /// A formatter with no open object.
    pub fn new() -> (r: Self)
        ensures
            r@ == Seq::<Seq<MemberView>>::empty(),
    {
        let r = CanonicalFormatter { object_stack: Vec::new() };
        assert(r@ =~= Seq::<Seq<MemberView>>::empty());
        r
    }

    /// Opens an object.
    fn push_object(&mut self)
        ensures
            final(self)@ == old(self)@.push(Seq::<MemberView>::empty()),
    {
        self.object_stack.push(ObjectStackFrame::new());
        assert(final(self)@ =~= old(self)@.push(Seq::<MemberView>::empty()));
    }

    /// Routes one write.
    fn emit(&mut self, out: &mut Vec<u8>, bytes: &[u8]) -> (r: Result<(), FormatError>)
        ensures
            routed(old(self)@, old(out)@, bytes@, final(self)@, final(out)@, r),
    {
        let n = self.object_stack.len();
        if n == 0 {
            push_all(out, bytes);
            return Ok(());
        }
        let ghost s0 = self.object_stack@;
        let mut frame = self.object_stack.pop().unwrap();
        assert(s0 =~= self.object_stack@.push(frame));
        let k = frame.members.len();
        if k == 0 {
            self.object_stack.push(frame);
            assert(self.object_stack@ =~= s0);
            return Err(FormatError::ProtocolViolation);
        }
        let ghost m0 = frame.members@;
        let mut member = frame.members.pop().unwrap();
        assert(m0 =~= frame.members@.push(member));
        member.push_str(bytes);
        frame.members.push(member);
        self.object_stack.push(frame);
        proof {
            let top = old(self)@.last();
            assert(frame@ =~= top.update(top.len() - 1, member_append(top.last(), bytes@)));
            assert(final(self)@ =~= append_to_current(old(self)@, bytes@));
        }
        Ok(())
    }

    /// Closes the innermost object and writes its canonical text to what
    /// encloses it.
    fn pop_object(&mut self, out: &mut Vec<u8>) -> (r: Result<(), FormatError>)
        ensures
            object_closed(old(self)@, old(out)@, final(self)@, final(out)@, r),
    {
        let n = self.object_stack.len();
        if n == 0 {
            return Err(FormatError::ProtocolViolation);
        }
        if n >= 2 && self.object_stack[n - 2].members.len() == 0 {
            return Err(FormatError::ProtocolViolation);
        }
        let frame = self.object_stack.pop().unwrap();
        assert(self@ =~= old(self)@.drop_last());
        let text = frame.string();
        self.emit(out, text.as_slice())
    }

    /// A floating-point value: always refused.
    pub fn write_float(&mut self, out: &mut Vec<u8>) -> (r: Result<(), FormatError>)
        ensures
            unchanged(old(self)@, old(out)@, final(self)@, final(out)@, r, Err(FormatError::UnsupportedFloat)),
    {
        Err(FormatError::UnsupportedFloat)
    }

    /// Number text, written only if it follows the canonical number grammar.
    pub fn write_number_str(&mut self, out: &mut Vec<u8>, value: &str) -> (r: Result<
        (),
        FormatError,
    >)
        ensures
            is_canonical_number(value.spec_bytes()) ==> routed(
                old(self)@,
                old(out)@,
                value.spec_bytes(),
                final(self)@,
                final(out)@,
                r,
            ),
            !is_canonical_number(value.spec_bytes()) ==> unchanged(
                old(self)@,
                old(out)@,
                final(self)@,
                final(out)@,
                r,
                Err(FormatError::InvalidNumberLiteral),
            ),
    {
        let bytes = value.as_bytes();
        if is_canonical_number_text(bytes) {
            self.emit(out, bytes)
        } else {
            Err(FormatError::InvalidNumberLiteral)
        }
    }

    /// A character of string content that asks to be escaped: quote and
    /// reverse solidus as backslash escapes, every other one as itself.
    pub fn write_char_escape(&mut self, out: &mut Vec<u8>, char_escape: CharEscape) -> (r: Result<
        (),
        FormatError,
    >)
        ensures
            routed(old(self)@, old(out)@, escape_bytes(char_escape), final(self)@, final(out)@, r),
    {
        let text = escape_text(char_escape);
        self.emit(out, text.as_slice())
    }

    /// Opens an object.
    pub fn begin_object(&mut self, out: &mut Vec<u8>) -> (r: Result<(), FormatError>)
        ensures
            r == Ok::<(), FormatError>(()),
            final(self)@ == old(self)@.push(Seq::<MemberView>::empty()),
            final(out)@ == old(out)@,
    {
        self.push_object();
        Ok(())
    }

    /// Starts a member of the innermost open object.
    pub fn begin_object_key(&mut self, out: &mut Vec<u8>, first: bool) -> (r: Result<
        (),
        FormatError,
    >)
        ensures
            final(out)@ == old(out)@,
            old(self)@.len() == 0 ==> r == Err::<(), FormatError>(FormatError::ProtocolViolation)
                && final(self)@ == old(self)@,
            old(self)@.len() > 0 ==> r == Ok::<(), FormatError>(()) && final(self)@ == old(
                self,
            )@.update(
                old(self)@.len() - 1,
                old(self)@.last().push(
                    MemberView { key: Seq::empty(), value: Seq::empty(), key_finished: false },
                ),
            ),
    {
        let n = self.object_stack.len();
        if n == 0 {
            return Err(FormatError::ProtocolViolation);
        }
        let ghost s0 = self.object_stack@;
        let mut frame = self.object_stack.pop().unwrap();
        assert(s0 =~= self.object_stack@.push(frame));
        frame.push_member();
        self.object_stack.push(frame);
        assert(final(self)@ =~= old(self)@.update(
            old(self)@.len() - 1,
            old(self)@.last().push(
                MemberView { key: Seq::empty(), value: Seq::empty(), key_finished: false },
            ),
        ));
        Ok(())
    }

    /// Ends the key of the current member: from now on its bytes go to the
    /// value.
    pub fn end_object_key(&mut self, out: &mut Vec<u8>) -> (r: Result<(), FormatError>)
        ensures
            final(out)@ == old(out)@,
            old(self)@.len() == 0 || old(self)@.last().len() == 0 ==> r == Err::<
                (),
                FormatError,
            >(FormatError::ProtocolViolation) && final(self)@ == old(self)@,
            old(self)@.len() > 0 && old(self)@.last().len() > 0 ==> r == Ok::<(), FormatError>(())
                && final(self)@ == old(self)@.update(
                old(self)@.len() - 1,
                old(self)@.last().update(
                    old(self)@.last().len() - 1,
                    MemberView { key_finished: true, ..old(self)@.last().last() },
                ),
            ),
    {
        let n = self.object_stack.len();
        if n == 0 {
            return Err(FormatError::ProtocolViolation);
        }
        let ghost s0 = self.object_stack@;
        let mut frame = self.object_stack.pop().unwrap();
        assert(s0 =~= self.object_stack@.push(frame));
        let k = frame.members.len();
        if k == 0 {
            self.object_stack.push(frame);
            assert(self.object_stack@ =~= s0);
            return Err(FormatError::ProtocolViolation);
        }
        let ghost m0 = frame.members@;
        let mut member = frame.members.pop().unwrap();
        assert(m0 =~= frame.members@.push(member));
        member.finish_key();
        frame.members.push(member);
        self.object_stack.push(frame);
        proof {
            let top = old(self)@.last();
            assert(frame@ =~= top.update(
                top.len() - 1,
                MemberView { key_finished: true, ..top.last() },
            ));
            assert(final(self)@ =~= old(self)@.update(old(self)@.len() - 1, frame@));
        }
        Ok(())
    }

    /// Closes the innermost object: its members are sorted by rendered key
    /// and the object is written as one piece.
    pub fn end_object(&mut self, out: &mut Vec<u8>) -> (r: Result<(), FormatError>)
        ensures
            object_closed(old(self)@, old(out)@, final(self)@, final(out)@, r),
    {
        self.pop_object(out)
    }

    /// Writes `null`.
    pub fn write_null(&mut self, out: &mut Vec<u8>) -> (r: Result<(), FormatError>)
        ensures
            routed(old(self)@, old(out)@, null_text(), final(self)@, final(out)@, r),
    {
        let text: Vec<u8> = vec![0x6eu8, 0x75u8, 0x6cu8, 0x6cu8];
        assert(text@ =~= null_text());
        self.emit(out, text.as_slice())
    }

    /// Writes `true` or `false`.
    pub fn write_bool(&mut self, out: &mut Vec<u8>, value: bool) -> (r: Result<(), FormatError>)
        ensures
            routed(old(self)@, old(out)@, bool_text(value), final(self)@, final(out)@, r),
    {
        let text: Vec<u8> = if value {
            vec![0x74u8, 0x72u8, 0x75u8, 0x65u8]
        } else {
            vec![0x66u8, 0x61u8, 0x6cu8, 0x73u8, 0x65u8]
        };
        assert(text@ =~= bool_text(value));
        self.emit(out, text.as_slice())
    }

    /// Writes the decimal text of a signed integer.
    fn write_signed(&mut self, out: &mut Vec<u8>, value: i128) -> (r: Result<(), FormatError>)
        ensures
            routed(old(self)@, old(out)@, decimal_text(value as int), final(self)@, final(out)@, r),
    {
        let text = format_signed(value);
        self.emit(out, text.as_slice())
    }

    /// Writes the decimal text of an unsigned integer.
    fn write_unsigned(&mut self, out: &mut Vec<u8>, value: u128) -> (r: Result<(), FormatError>)
        ensures
            routed(old(self)@, old(out)@, decimal_text(value as int), final(self)@, final(out)@, r),
    {
        let text = format_unsigned(value);
        self.emit(out, text.as_slice())
    }

    /// Writes the decimal text of an integer.
    pub fn write_i8(&mut self, out: &mut Vec<u8>, value: i8) -> (r: Result<(), FormatError>)
        ensures
            routed(old(self)@, old(out)@, decimal_text(value as int), final(self)@, final(out)@, r),
    {
        self.write_signed(out, value as i128)
    }

    /// Writes the decimal text of an integer.
    pub fn write_i16(&mut self, out: &mut Vec<u8>, value: i16) -> (r: Result<(), FormatError>)
        ensures
            routed(old(self)@, old(out)@, decimal_text(value as int), final(self)@, final(out)@, r),
    {
        self.write_signed(out, value as i128)
    }

    /// Writes the decimal text of an integer.
    pub fn write_i32(&mut self, out: &mut Vec<u8>, value: i32) -> (r: Result<(), FormatError>)
        ensures
            routed(old(self)@, old(out)@, decimal_text(value as int), final(self)@, final(out)@, r),
    {
        self.write_signed(out, value as i128)
    }

    /// Writes the decimal text of an integer.
    pub fn write_i64(&mut self, out: &mut Vec<u8>, value: i64) -> (r: Result<(), FormatError>)
        ensures
            routed(old(self)@, old(out)@, decimal_text(value as int), final(self)@, final(out)@, r),
    {
        self.write_signed(out, value as i128)
    }

    /// Writes the decimal text of an integer.
    pub fn write_i128(&mut self, out: &mut Vec<u8>, value: i128) -> (r: Result<(), FormatError>)
        ensures
            routed(old(self)@, old(out)@, decimal_text(value as int), final(self)@, final(out)@, r),
    {
        self.write_signed(out, value)
    }

    /// Writes the decimal text of an integer.
    pub fn write_u8(&mut self, out: &mut Vec<u8>, value: u8) -> (r: Result<(), FormatError>)
        ensures
            routed(old(self)@, old(out)@, decimal_text(value as int), final(self)@, final(out)@, r),
    {
        self.write_unsigned(out, value as u128)
    }

    /// Writes the decimal text of an integer.
    pub fn write_u16(&mut self, out: &mut Vec<u8>, value: u16) -> (r: Result<(), FormatError>)
        ensures
            routed(old(self)@, old(out)@, decimal_text(value as int), final(self)@, final(out)@, r),
    {
        self.write_unsigned(out, value as u128)
    }

    /// Writes the decimal text of an integer.
    pub fn write_u32(&mut self, out: &mut Vec<u8>, value: u32) -> (r: Result<(), FormatError>)
        ensures
            routed(old(self)@, old(out)@, decimal_text(value as int), final(self)@, final(out)@, r),
    {
        self.write_unsigned(out, value as u128)
    }

    /// Writes the decimal text of an integer.
    pub fn write_u64(&mut self, out: &mut Vec<u8>, value: u64) -> (r: Result<(), FormatError>)
        ensures
            routed(old(self)@, old(out)@, decimal_text(value as int), final(self)@, final(out)@, r),
    {
        self.write_unsigned(out, value as u128)
    }

    /// Writes the decimal text of an integer.
    pub fn write_u128(&mut self, out: &mut Vec<u8>, value: u128) -> (r: Result<(), FormatError>)
        ensures
            routed(old(self)@, old(out)@, decimal_text(value as int), final(self)@, final(out)@, r),
    {
        self.write_unsigned(out, value)
    }

    /// Opens a string: a quote.
    pub fn begin_string(&mut self, out: &mut Vec<u8>) -> (r: Result<(), FormatError>)
        ensures
            routed(old(self)@, old(out)@, seq![QUOTE], final(self)@, final(out)@, r),
    {
        let text: Vec<u8> = vec![QUOTE];
        assert(text@ =~= seq![QUOTE]);
        self.emit(out, text.as_slice())
    }

    /// Closes a string: a quote.
    pub fn end_string(&mut self, out: &mut Vec<u8>) -> (r: Result<(), FormatError>)
        ensures
            routed(old(self)@, old(out)@, seq![QUOTE], final(self)@, final(out)@, r),
    {
        let text: Vec<u8> = vec![QUOTE];
        assert(text@ =~= seq![QUOTE]);
        self.emit(out, text.as_slice())
    }

    /// String content that needs no escaping, written as it is.
    pub fn write_string_fragment(&mut self, out: &mut Vec<u8>, fragment: &str) -> (r: Result<
        (),
        FormatError,
    >)
        ensures
            routed(old(self)@, old(out)@, fragment.spec_bytes(), final(self)@, final(out)@, r),
    {
        self.emit(out, fragment.as_bytes())
    }

    /// Ready-made JSON text, written as it is.
    pub fn write_raw_fragment(&mut self, out: &mut Vec<u8>, fragment: &str) -> (r: Result<
        (),
        FormatError,
    >)
        ensures
            routed(old(self)@, old(out)@, fragment.spec_bytes(), final(self)@, final(out)@, r),
    {
        self.emit(out, fragment.as_bytes())
    }

    /// Opens an array: arrays keep their order, so their bytes are written
    /// where the array stands.
    pub fn begin_array(&mut self, out: &mut Vec<u8>) -> (r: Result<(), FormatError>)
        ensures
            routed(old(self)@, old(out)@, seq![OPEN_BRACKET], final(self)@, final(out)@, r),
    {
        let text: Vec<u8> = vec![OPEN_BRACKET];
        assert(text@ =~= seq![OPEN_BRACKET]);
        self.emit(out, text.as_slice())
    }

    /// Closes an array.
    pub fn end_array(&mut self, out: &mut Vec<u8>) -> (r: Result<(), FormatError>)
        ensures
            routed(old(self)@, old(out)@, seq![CLOSE_BRACKET], final(self)@, final(out)@, r),
    {
        let text: Vec<u8> = vec![CLOSE_BRACKET];
        assert(text@ =~= seq![CLOSE_BRACKET]);
        self.emit(out, text.as_slice())
    }

    /// Starts an array element: a comma before every element but the first.
    pub fn begin_array_value(&mut self, out: &mut Vec<u8>, first: bool) -> (r: Result<
        (),
        FormatError,
    >)
        ensures
            first ==> unchanged(old(self)@, old(out)@, final(self)@, final(out)@, r, Ok(())),
            !first ==> routed(old(self)@, old(out)@, seq![ARRAY_COMMA], final(self)@, final(out)@, r),
    {
        if first {
            return Ok(());
        }
        let text: Vec<u8> = vec![ARRAY_COMMA];
        assert(text@ =~= seq![ARRAY_COMMA]);
        self.emit(out, text.as_slice())
    }

    /// Ends an array element: nothing to write.
    pub fn end_array_value(&mut self, out: &mut Vec<u8>) -> (r: Result<(), FormatError>)
        ensures
            unchanged(old(self)@, old(out)@, final(self)@, final(out)@, r, Ok(())),
    {
        Ok(())
    }

    /// Starts a member's value: nothing to write.
    pub fn begin_object_value(&mut self, out: &mut Vec<u8>) -> (r: Result<(), FormatError>)
        ensures
            unchanged(old(self)@, old(out)@, final(self)@, final(out)@, r, Ok(())),
    {
        Ok(())
    }

    /// Ends a member's value: nothing to write.
    pub fn end_object_value(&mut self, out: &mut Vec<u8>) -> (r: Result<(), FormatError>)
        ensures
            unchanged(old(self)@, old(out)@, final(self)@, final(out)@, r, Ok(())),
    {
        Ok(())
    }
}

} // verus!
