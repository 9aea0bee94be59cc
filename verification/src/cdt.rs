//! Complex-data-type operations: an opcode with its ordered arguments, an
//! optional context path addressing a nested element, and the two encoding
//! passes (measure, then write) that share one traversal.

use vstd::prelude::*;

use crate::buffer::{Buffer, EncodeError};
use crate::msgpack::{
    array_header, bool_bytes, int_bytes, items_bytes, map_header, pack_array, pack_array_header,
    pack_bool, pack_integer, pack_map, pack_value, packs, pairs_bytes, value_bytes,
};
use crate::value::{items_wf, pairs_wf, value_wf, Value};

verus! {

broadcast use crate::buffer::Buffer::lemma_len_within_capacity;

/// The wire type tag a stored value reports to the outer command frame.
/// A CDT operation always reports `BLOB`: its encoded payload is an opaque
/// binary region from the outer protocol's point of view.
#[allow(non_camel_case_types)]
#[derive(Clone, Copy, Debug, PartialEq, Eq, Structural)]
pub enum ParticleType {
    NULL,
    INTEGER,
    FLOAT,
    STRING,
    BLOB,
    LIST,
    MAP,
    GEOJSON,
}

/// One operand of a CDT operation. Value, list and map arguments borrow
/// caller-owned storage: an argument is a transient view built just before
/// encoding and discarded after, never an owner of its payload.
#[derive(Clone, Copy, Debug)]
pub enum CdtArgument<'a> {
    Byte(u8),
    Int(i64),
    Bool(bool),
    Value(&'a Value),
    List(&'a [Value]),
    OrderedMap(&'a [(Value, Value)]),
}

/// One context descriptor: a selector opcode (an opaque, server-defined tag)
/// paired with the stored value that locates the target inside its parent
/// container — an index, key, rank or value.
#[derive(Debug)]
pub struct CdtContext {
    /// The selector opcode.
    pub id: u8,
    /// The selector payload.
    pub value: Value,
}

/// One CDT operation: a server-defined opcode plus its arguments in order.
/// Argument order and count are meaningful and preserved exactly.
#[derive(Debug)]
pub struct CdtOperation<'a> {
    /// The operation code; an opaque tag interpreted by the server.
    pub op: u8,
    /// The operands, encoded in this order.
    pub args: Vec<CdtArgument<'a>>,
}

/// The encoding of one argument, by its tag.
pub open spec fn arg_bytes<'a>(a: CdtArgument<'a>) -> Seq<u8> {
    match a {
        CdtArgument::Byte(b) => int_bytes(b as i64),
        CdtArgument::Int(i) => int_bytes(i),
        CdtArgument::Bool(b) => bool_bytes(b),
        CdtArgument::Value(v) => value_bytes(*v),
        CdtArgument::List(items) => array_header(items@.len() as int) + items_bytes(items@),
        CdtArgument::OrderedMap(pairs) => map_header(pairs@.len() as int) + pairs_bytes(pairs@),
    }
}

/// Well-formed argument: any payload it borrows is well-formed for the wire
/// format.
pub open spec fn arg_wf<'a>(a: CdtArgument<'a>) -> bool {
    match a {
        CdtArgument::Byte(_) => true,
        CdtArgument::Int(_) => true,
        CdtArgument::Bool(_) => true,
        CdtArgument::Value(v) => value_wf(*v),
        CdtArgument::List(items) => items_wf(items@),
        CdtArgument::OrderedMap(pairs) => pairs_wf(pairs@),
    }
}

/// The arguments of an operation, each encoded in order.
pub open spec fn args_bytes<'a>(args: Seq<CdtArgument<'a>>) -> Seq<u8>
    decreases args.len(),
{
    if args.len() == 0 {
        Seq::empty()
    } else {
        args_bytes(args.subrange(0, args.len() - 1)) + arg_bytes(args[args.len() - 1])
    }
}

/// Every argument is well-formed.
pub open spec fn args_wf<'a>(args: Seq<CdtArgument<'a>>) -> bool {
    forall|i: int| 0 <= i < args.len() ==> arg_wf(#[trigger] args[i])
}

/// The encoding of one context descriptor: its selector opcode, then its
/// selector value.
pub open spec fn ctx_entry_bytes(c: CdtContext) -> Seq<u8> {
    int_bytes(c.id as i64) + value_bytes(c.value)
}

/// The descriptors of a context path, each encoded in path order,
/// outermost first.
pub open spec fn ctx_bytes(ctx: Seq<CdtContext>) -> Seq<u8>
    decreases ctx.len(),
{
    if ctx.len() == 0 {
        Seq::empty()
    } else {
        ctx_bytes(ctx.subrange(0, ctx.len() - 1)) + ctx_entry_bytes(ctx[ctx.len() - 1])
    }
}

/// Well-formed context path: twice its length (one slot for each selector
/// opcode and each selector value) fits a four-byte count, and every
/// selector value is well-formed.
pub open spec fn ctx_wf(ctx: Seq<CdtContext>) -> bool {
    &&& 2 * ctx.len() <= 0xffff_ffff
    &&& forall|i: int| 0 <= i < ctx.len() ==> value_wf((#[trigger] ctx[i]).value)
}

/// The complete encoding of an operation with its context path.
///
/// With an empty path: the two CDT header bytes (a zero byte and the
/// opcode), then — only if there are arguments — an argument-count header
/// and the arguments in order. With a non-empty path: a three-element
/// sequence holding the context extension marker, the flattened descriptor
/// pairs in path order, and finally the opcode with its arguments.
pub open spec fn cdt_op_bytes<'a>(
    op: u8,
    args: Seq<CdtArgument<'a>>,
    ctx: Seq<CdtContext>,
) -> Seq<u8> {
    if ctx.len() == 0 {
        seq![0u8, op] + (if args.len() == 0 {
            Seq::<u8>::empty()
        } else {
            array_header(args.len() as int) + args_bytes(args)
        })
    } else {
        array_header(3) + int_bytes(0xff) + array_header(2 * ctx.len() as int) + ctx_bytes(ctx)
            + array_header(args.len() as int + 1) + int_bytes(op as i64) + args_bytes(args)
    }
}

/// A step of [`args_bytes`]: extending the encoded prefix by one argument
/// appends exactly that argument's encoding.
proof fn lemma_args_bytes_step<'a>(s: Seq<CdtArgument<'a>>, j: int)
    requires
        0 <= j < s.len(),
    ensures
        args_bytes(s.subrange(0, j + 1)) == args_bytes(s.subrange(0, j)) + arg_bytes(s[j]),
{
    let t = s.subrange(0, j + 1);
    assert(t.subrange(0, j) =~= s.subrange(0, j));
    assert(t[j] == s[j]);
}

/// The encoding of a prefix never exceeds the encoding of all arguments.
proof fn lemma_args_bytes_prefix<'a>(s: Seq<CdtArgument<'a>>, j: int)
    requires
        0 <= j <= s.len(),
    ensures
        args_bytes(s.subrange(0, j)).len() <= args_bytes(s).len(),
    decreases s.len() - j,
{
    if j == s.len() {
        assert(s.subrange(0, j) =~= s);
    } else {
        lemma_args_bytes_step(s, j);
        lemma_args_bytes_prefix(s, j + 1);
    }
}

/// A step of [`ctx_bytes`]: extending the encoded prefix by one descriptor
/// appends exactly that descriptor's encoding.
proof fn lemma_ctx_bytes_step(s: Seq<CdtContext>, j: int)
    requires
        0 <= j < s.len(),
    ensures
        ctx_bytes(s.subrange(0, j + 1)) == ctx_bytes(s.subrange(0, j)) + ctx_entry_bytes(s[j]),
{
    let t = s.subrange(0, j + 1);
    assert(t.subrange(0, j) =~= s.subrange(0, j));
    assert(t[j] == s[j]);
}

/// The encoding of a prefix never exceeds the encoding of the whole path.
proof fn lemma_ctx_bytes_prefix(s: Seq<CdtContext>, j: int)
    requires
        0 <= j <= s.len(),
    ensures
        ctx_bytes(s.subrange(0, j)).len() <= ctx_bytes(s).len(),
    decreases s.len() - j,
{
    if j == s.len() {
        assert(s.subrange(0, j) =~= s);
    } else {
        lemma_ctx_bytes_step(s, j);
        lemma_ctx_bytes_prefix(s, j + 1);
    }
}

/// Descriptors are encoded outermost-first: the encoded path starts with the
/// first descriptor's bytes, followed by the encoding of the rest of the
/// path, in order.
pub proof fn lemma_ctx_bytes_ordered(ctx: Seq<CdtContext>)
    requires
        ctx.len() > 0,
    ensures
        ctx_bytes(ctx) == ctx_entry_bytes(ctx[0]) + ctx_bytes(ctx.subrange(1, ctx.len() as int)),
    decreases ctx.len(),
{
    if ctx.len() == 1 {
        assert(ctx.subrange(0, 0) =~= Seq::<CdtContext>::empty());
        assert(ctx.subrange(1, 1) =~= Seq::<CdtContext>::empty());
        assert(ctx_bytes(ctx) =~= ctx_entry_bytes(ctx[0]) + ctx_bytes(ctx.subrange(1, 1)));
    } else {
        let head = ctx.subrange(0, ctx.len() - 1);
        lemma_ctx_bytes_ordered(head);
        let tail = ctx.subrange(1, ctx.len() as int);
        assert(head.subrange(1, head.len() as int) =~= tail.subrange(0, tail.len() - 1));
        assert(head[0] == ctx[0]);
        assert(tail[tail.len() - 1] == ctx[ctx.len() - 1]);
        assert(ctx_bytes(ctx) =~= ctx_entry_bytes(ctx[0]) + ctx_bytes(tail));
    }
}

/// An operation with no arguments and no context path encodes to the fixed
/// minimal sequence: the CDT header byte and the opcode, nothing else, and
/// the measure pass reports exactly that length of two.
pub proof fn lemma_empty_operation_encoding(op: u8)
    ensures
        cdt_op_bytes(op, Seq::<CdtArgument>::empty(), Seq::<CdtContext>::empty()) == seq![0u8, op],
        cdt_op_bytes(op, Seq::<CdtArgument>::empty(), Seq::<CdtContext>::empty()).len() == 2,
{
    assert(cdt_op_bytes(op, Seq::<CdtArgument>::empty(), Seq::<CdtContext>::empty()) =~= seq![
        0u8,
        op,
    ]);
}

/// A context path of length zero omits the context extension entirely: the
/// encoding is the plain operation encoding, byte for byte — the header
/// bytes, then the arguments (with their count) only if there are any.
pub proof fn lemma_empty_context_encoding<'a>(op: u8, args: Seq<CdtArgument<'a>>)
    ensures
        cdt_op_bytes(op, args, Seq::<CdtContext>::empty()) == seq![0u8, op] + (if args.len() == 0 {
            Seq::<u8>::empty()
        } else {
            array_header(args.len() as int) + args_bytes(args)
        }),
{
}

/// Measure/write equivalence: whenever the measure pass reports a count for
/// an operation and path, and the write pass succeeds on the same operation
/// and path, the reported count equals the number of bytes the write pass
/// appended to its buffer. Both passes are pinned to the one specification
/// sequence [`cdt_op_bytes`], so they cannot drift apart.
pub proof fn lemma_measure_matches_write<'a>(
    op: CdtOperation<'a>,
    ctx: Seq<CdtContext>,
    measured: usize,
    pre: Buffer,
    post: Buffer,
    written: usize,
)
    requires
        measured == op.encoding(ctx).len(),
        packs(pre, post, Ok(written), op.encoding(ctx)),
    ensures
        measured == written,
        post@.len() - pre@.len() == measured,
{
}

/// Append the encoding of one argument, by its tag.
fn pack_cdt_arg<'a>(buf: &mut Buffer, arg: &CdtArgument<'a>) -> (r: Result<usize, EncodeError>)
    requires
        old(buf).well_formed(),
        arg_wf(*arg),
    ensures
        packs(*old(buf), *final(buf), r, arg_bytes(*arg)),
{
    match arg {
        CdtArgument::Byte(b) => pack_integer(buf, *b as i64),
        CdtArgument::Int(i) => pack_integer(buf, *i),
        CdtArgument::Bool(b) => pack_bool(buf, *b),
        CdtArgument::Value(v) => pack_value(buf, v),
        CdtArgument::List(items) => pack_array(buf, items),
        CdtArgument::OrderedMap(pairs) => pack_map(buf, pairs),
    }
}

/// Append the complete encoding of `op` addressed through `ctx`: the single
/// recursive traversal shared by the measure pass and the write pass.
#[verifier::loop_isolation(false)]
#[verifier::rlimit(100)]
pub fn pack_cdt_op<'a>(buf: &mut Buffer, op: &CdtOperation<'a>, ctx: &[CdtContext]) -> (r: Result<
    usize,
    EncodeError,
>)
    requires
        old(buf).well_formed(),
        op.wf(),
        ctx_wf(ctx@),
    ensures
        packs(*old(buf), *final(buf), r, cdt_op_bytes(op.op, op.args@, ctx@)),
{
    let ghost whole = cdt_op_bytes(op.op, op.args@, ctx@);
    let ghost lead: Seq<u8>;
    let mut n: usize;
    if ctx.is_empty() {
        buf.write_u8(0)?;
        match buf.write_u8(op.op) {
            Ok(_) => {},
            Err(e) => {
                return Err(e);
            },
        }
        n = 2;
        if op.args.len() > 0 {
            let m = pack_array_header(buf, op.args.len())?;
            n = n + m;
        }
        proof {
            lead = if op.args@.len() == 0 {
                seq![0u8, op.op]
            } else {
                seq![0u8, op.op] + array_header(op.args@.len() as int)
            };
            assert(buf@ =~= old(buf)@ + lead);
        }
    } else {
        let m1 = pack_array_header(buf, 3)?;
        let m2 = pack_integer(buf, 0xff)?;
        let m3 = pack_array_header(buf, 2 * ctx.len())?;
        n = m1 + m2 + m3;
        let ghost ctx_lead = array_header(3) + int_bytes(0xff) + array_header(
            2 * ctx@.len() as int,
        );
        proof {
            assert(buf@ =~= old(buf)@ + ctx_lead);
        }
        let mut i: usize = 0;
        while i < ctx.len()
            invariant
                i <= ctx@.len(),
                buf.well_formed(),
                buf.is_writing() == old(buf).is_writing(),
                buf.capacity() == old(buf).capacity(),
                buf@ == old(buf)@ + ctx_lead + ctx_bytes(ctx@.subrange(0, i as int)),
                n == buf@.len() - old(buf)@.len(),
            decreases ctx@.len() - i,
        {
            let mi = match pack_integer(buf, ctx[i].id as i64) {
                Ok(m) => m,
                Err(e) => {
                    proof {
                        lemma_ctx_bytes_step(ctx@, i as int);
                        lemma_ctx_bytes_prefix(ctx@, i as int + 1);
                    }
                    return Err(e);
                },
            };
            let mv = match pack_value(buf, &ctx[i].value) {
                Ok(m) => m,
                Err(e) => {
                    proof {
                        lemma_ctx_bytes_step(ctx@, i as int);
                        lemma_ctx_bytes_prefix(ctx@, i as int + 1);
                    }
                    return Err(e);
                },
            };
            proof {
                lemma_ctx_bytes_step(ctx@, i as int);
                assert(buf@ =~= old(buf)@ + ctx_lead + ctx_bytes(ctx@.subrange(0, i as int + 1)));
            }
            n = n + mi + mv;
            i = i + 1;
        }
        proof {
            assert(ctx@.subrange(0, ctx@.len() as int) =~= ctx@);
        }
        let m4 = match pack_array_header(buf, op.args.len() + 1) {
            Ok(m) => m,
            Err(e) => {
                return Err(e);
            },
        };
        let m5 = match pack_integer(buf, op.op as i64) {
            Ok(m) => m,
            Err(e) => {
                return Err(e);
            },
        };
        n = n + m4 + m5;
        proof {
            lead = ctx_lead + ctx_bytes(ctx@) + array_header(op.args@.len() as int + 1)
                + int_bytes(op.op as i64);
            assert(buf@ =~= old(buf)@ + lead);
        }
    }
    let mut i: usize = 0;
    while i < op.args.len()
        invariant
            i <= op.args@.len(),
            buf.well_formed(),
            buf.is_writing() == old(buf).is_writing(),
            buf.capacity() == old(buf).capacity(),
            whole == lead + args_bytes(op.args@),
            buf@ == old(buf)@ + lead + args_bytes(op.args@.subrange(0, i as int)),
            n == buf@.len() - old(buf)@.len(),
        decreases op.args@.len() - i,
    {
        let m = match pack_cdt_arg(buf, &op.args[i]) {
            Ok(m) => m,
            Err(e) => {
                proof {
                    lemma_args_bytes_step(op.args@, i as int);
                    lemma_args_bytes_prefix(op.args@, i as int + 1);
                }
                return Err(e);
            },
        };
        proof {
            lemma_args_bytes_step(op.args@, i as int);
            assert(buf@ =~= old(buf)@ + lead + args_bytes(op.args@.subrange(0, i as int + 1)));
        }
        n = n + m;
        i = i + 1;
    }
    proof {
        assert(op.args@.subrange(0, op.args@.len() as int) =~= op.args@);
        assert(buf@ =~= old(buf)@ + whole);
    }
    Ok(n)
}

impl<'a> CdtOperation<'a> {
    /// Well-formed operation: every argument is well-formed and the argument
    /// count leaves room for the opcode slot in a four-byte count field.
    pub open spec fn wf(&self) -> bool {
        &&& args_wf(self.args@)
        &&& self.args@.len() + 1 <= 0xffff_ffff
    }

    /// The complete encoding of this operation through context path `ctx`.
    pub open spec fn encoding(&self, ctx: Seq<CdtContext>) -> Seq<u8> {
        cdt_op_bytes(self.op, self.args@, ctx)
    }

    /// The wire type tag this operation reports to the outer command frame:
    /// always the opaque-binary tag, whatever the opcode.
    pub fn particle_type(&self) -> (r: ParticleType)
        ensures
            r == ParticleType::BLOB,
    {
        ParticleType::BLOB
    }

    /// The measure pass: the exact byte count the encoding will occupy,
    /// computed by the shared traversal over a measure-only sink, with no
    /// allocation and no visible mutation. Two calls on the same operation
    /// and path return the same count: the result is a function of the
    /// inputs alone, and equals what [`Self::write_to`] appends.
    pub fn estimate_size(&self, ctx: &[CdtContext]) -> (r: Result<usize, EncodeError>)
        requires
            self.wf(),
            ctx_wf(ctx@),
        ensures
            match r {
                Ok(n) => n == self.encoding(ctx@).len(),
                Err(e) => {
                    &&& self.encoding(ctx@).len() > usize::MAX
                    &&& e == EncodeError::CapacityExceeded
                },
            },
    {
        let mut buf = Buffer::measuring();
        let size = pack_cdt_op(&mut buf, self, ctx)?;
        Ok(size)
    }

    /// The write pass: append the encoding to `buffer` and return the byte
    /// count written — exactly the count the measure pass reports. Fails
    /// only if the buffer refuses a write; the buffer is then left partially
    /// written and should be discarded or reset by the caller.
    pub fn write_to(&self, buffer: &mut Buffer, ctx: &[CdtContext]) -> (r: Result<
        usize,
        EncodeError,
    >)
        requires
            old(buffer).well_formed(),
            self.wf(),
            ctx_wf(ctx@),
        ensures
            packs(*old(buffer), *final(buffer), r, self.encoding(ctx@)),
    {
        let size = pack_cdt_op(buffer, self, ctx)?;
        Ok(size)
    }
}

} // verus!
