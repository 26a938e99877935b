//! Messages relayed by the engine, and the relay's configuration.

use vstd::prelude::*;

verus! {

/// The byte value of the line terminator (`'\n'`).
pub const LINE_TERMINATOR: u8 = 10;

/// Mathematical view of a [`Message`]: the sender, if known, and the
/// text as a sequence of bytes.
pub ghost struct MessageModel {
    pub origin: Option<u64>,
    pub text: Seq<u8>,
}

/// One immutable text line relayed by the engine.
///
/// `origin` is the identity of the client that submitted the line, if
/// any; `text` holds the line's UTF-8 bytes as read from the transport,
/// without any framing added by the engine.
pub struct Message {
    pub origin: Option<u64>,
    pub text: Vec<u8>,
}

impl View for Message {
    type V = MessageModel;

    open spec fn view(&self) -> MessageModel {
        MessageModel { origin: self.origin, text: self.text@ }
    }
}

impl Clone for Message {
    fn clone(&self) -> (r: Self)
        ensures
            r@ == self@,
    {
        let text = self.text.clone();
        proof {
            assert(text@ =~= self.text@);
        }
        Message { origin: self.origin, text }
    }
}

/// How the relay behaves where the design leaves a choice.
///
/// * `echo_to_self`: whether a broadcast is also delivered to the
///   sender's own outbox (the default engine behaviour).
/// * `attribute_sender`: whether outbound lines are prefixed with
///   `Client <id> sent message: ` naming the sender.
/// * `max_line_len`: upper bound, in bytes, on an inbound line; a
///   longer line ends the offending client's session rather than grow
///   memory without bound.
#[derive(Clone, Copy)]
pub struct RelayConfig {
    pub echo_to_self: bool,
    pub attribute_sender: bool,
    pub max_line_len: usize,
}

/// The decimal digits of `n`, as bytes, most significant digit first.
pub open spec fn decimal_rep(n: nat) -> Seq<u8>
    decreases n,
{
    if n < 10 {
        seq![(n + 48) as u8]
    } else {
        decimal_rep(n / 10).push((n % 10 + 48) as u8)
    }
}

/// The bytes of `"Client "`, the start of an attribution prefix.
pub open spec fn attribution_start() -> Seq<u8> {
    seq![67u8, 108u8, 105u8, 101u8, 110u8, 116u8, 32u8]
}

/// The bytes of `" sent message: "`, between the sender's identifier
/// and the text.
pub open spec fn attribution_middle() -> Seq<u8> {
    seq![32u8, 115u8, 101u8, 110u8, 116u8, 32u8, 109u8, 101u8, 115u8, 115u8, 97u8, 103u8, 101u8, 58u8, 32u8]
}

/// The text a recipient is shown for `m`: the text itself, prefixed
/// with `Client <id> sent message: ` when attribution is switched on
/// and the sender is known.
pub open spec fn formatted_text(m: MessageModel, cfg: RelayConfig) -> Seq<u8> {
    if cfg.attribute_sender && m.origin is Some {
        attribution_start() + decimal_rep(m.origin.unwrap() as nat) + attribution_middle() + m.text
    } else {
        m.text
    }
}

/// The bytes put on the wire for `m`: the formatted text, with a line
/// terminator appended when the text does not already end in one.
pub open spec fn wire_line(m: MessageModel, cfg: RelayConfig) -> Seq<u8> {
    let t = formatted_text(m, cfg);
    if t.len() > 0 && t.last() == LINE_TERMINATOR {
        t
    } else {
        t.push(LINE_TERMINATOR)
    }
}

/// Appends the decimal digits of `n` to `out`.
fn push_decimal(out: &mut Vec<u8>, n: u64)
    ensures
        final(out)@ == old(out)@ + decimal_rep(n as nat),
    decreases n,
{
    if n < 10 {
        out.push((n as u8) + 48);
        proof {
            assert(out@ =~= old(out)@ + decimal_rep(n as nat));
        }
    } else {
        push_decimal(out, n / 10);
        out.push(((n % 10) as u8) + 48);
        proof {
            assert(out@ =~= old(out)@ + decimal_rep(n as nat));
        }
    }
}

/// Builds the exact line of bytes the writer task puts on the wire
/// for `m`: attribution prefix where configured, then the text, then
/// a line terminator unless the text already carries one.
pub fn format_for_send(m: &Message, cfg: &RelayConfig) -> (r: Vec<u8>)
    ensures
        r@ == wire_line(m@, *cfg),
{
    let mut out: Vec<u8> = Vec::new();
    let attributed: bool = match m.origin {
        Some(id) => {
            if cfg.attribute_sender {
                out.push(67);
                out.push(108);
                out.push(105);
                out.push(101);
                out.push(110);
                out.push(116);
                out.push(32);
                proof {
                    assert(out@ =~= attribution_start());
                }
                push_decimal(&mut out, id);
                out.push(32);
                out.push(115);
                out.push(101);
                out.push(110);
                out.push(116);
                out.push(32);
                out.push(109);
                out.push(101);
                out.push(115);
                out.push(115);
                out.push(97);
                out.push(103);
                out.push(101);
                out.push(58);
                out.push(32);
                proof {
                    assert(out@ =~= attribution_start() + decimal_rep(id as nat)
                        + attribution_middle());
                }
                true
            } else {
                false
            }
        },
        None => false,
    };
    let ghost base = out@;
    let n = m.text.len();
    let mut j: usize = 0;
    while j < n
        invariant
            n == m.text.len(),
            j <= n,
            out@ == base + m.text@.subrange(0, j as int),
        decreases n - j,
    {
        out.push(m.text[j]);
        proof {
            assert(out@ =~= base + m.text@.subrange(0, j as int + 1));
        }
        j += 1;
    }
    proof {
        assert(m.text@.subrange(0, n as int) =~= m.text@);
        assert(attributed ==> out@ == formatted_text(m@, *cfg));
        assert(!attributed ==> base =~= Seq::<u8>::empty() && out@ =~= m.text@);
    }
    if out.len() == 0 || out[out.len() - 1] != LINE_TERMINATOR {
        out.push(LINE_TERMINATOR);
    }
    out
}

} // verus!
