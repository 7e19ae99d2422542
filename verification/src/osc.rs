//! Remote control by Open Sound Control messages.
use vstd::prelude::*;

use crate::app::App;
use crate::text::same;

verus! {

/// The largest datagram that is received.
pub const MTU: usize = 1536;

/// An argument of a message, as far as a control looks at it.
#[derive(Clone, Copy, Debug, PartialEq, Eq, Structural)]
pub enum OscArg {
    /// A single-precision number, as its encoding.
    Float(u32),
    /// A 32-bit integer.
    Int(i32),
    /// Something else.
    Other,
}

/// A message: an address and the arguments, in order.
#[derive(Debug)]
pub struct Message {
    pub addr: String,
    pub args: Vec<OscArg>,
}

/// What a datagram holds.
#[derive(Debug)]
pub enum Packet {
    Message(Message),
    /// A bundle of messages. Bundles are not looked into.
    Bundle,
}

/// Why a datagram is none.
#[derive(Debug)]
pub struct DecodeError {
    pub reason: String,
}

/// The address and the arguments of a message; nothing of a bundle.
pub open spec fn content(packet: Packet) -> Option<(Seq<char>, Seq<OscArg>)> {
    match packet {
        Packet::Message(message) => Some((message.addr@, message.args@)),
        Packet::Bundle => None,
    }
}

/// An argument, as the decoder reads it: the encoding of the single-precision
/// number that it is, if it is one, and the 32-bit integer that it is, if it is
/// one.
pub type Reading = (Option<u32>, Option<i32>);

/// What the `rosc` decoder makes of a datagram: the address and the readings of
/// the arguments of a message, nothing of a bundle, or the error that it reports.
pub uninterp spec fn decoded(datagram: Seq<u8>) -> Result<
    Option<(Seq<char>, Seq<(Option<u32>, Option<i32>)>)>,
    Seq<char>,
>;

/// The argument that has this reading.
pub open spec fn argument_of(reading: Reading) -> OscArg {
    match reading {
        (Some(f), _) => OscArg::Float(f),
        (None, Some(i)) => OscArg::Int(i),
        (None, None) => OscArg::Other,
    }
}

/// The message that was decoded, its arguments told apart.
pub open spec fn told_apart(found: Option<(Seq<char>, Seq<Reading>)>) -> Option<
    (Seq<char>, Seq<OscArg>),
> {
    match found {
        Some((addr, readings)) => Some(
            (addr, readings.map_values(|reading: Reading| argument_of(reading))),
        ),
        None => None,
    }
}

/// `rosc`'s `decoder::decode_udp`, whose result is named. Of a message, the
/// address is handed on, and the arguments, all of them and in order, each as
/// `rosc`'s `OscType::float` and `OscType::int` read it; of an error, its debug
/// text.
///
/// The decoder descends into nested bundles, so the size of a datagram is
/// bounded.
#[verifier::external_body]
fn decode_udp(datagram: &[u8]) -> (r: Result<Option<(String, Vec<Reading>)>, String>)
    requires
        datagram@.len() <= MTU,
    ensures
        match r {
            Ok(Some((addr, args))) => decoded(datagram@) matches Ok(Some(found)) && found == (
                addr@,
                args@,
            ),
            Ok(None) => decoded(datagram@) matches Ok(None),
            Err(text) => decoded(datagram@) matches Err(reported) && reported == text@,
        },
{
    match rosc::decoder::decode_udp(datagram) {
        Ok((_, rosc::OscPacket::Message(m))) => {
            let args = m.args.into_iter().map(
                |arg| (arg.clone().float().map(|f| f.to_bits()), arg.int()),
            );
            Ok(Some((m.addr, args.collect())))
        },
        Ok((_, rosc::OscPacket::Bundle(_))) => Ok(None),
        Err(e) => Err(format!("{:?}", e)),
    }
}

/// Tells the arguments of a message apart, each by its reading.
pub fn arguments(readings: &[Reading]) -> (r: Vec<OscArg>)
    ensures
        r@ == readings@.map_values(|reading: Reading| argument_of(reading)),
{
    let mut args: Vec<OscArg> = Vec::new();
    let mut i: usize = 0;
    while i < readings.len()
        invariant
            0 <= i <= readings@.len(),
            args@.len() == i,
            forall|k: int| 0 <= k < i ==> #[trigger] args@[k] == argument_of(readings@[k]),
        decreases readings@.len() - i,
    {
        let arg: OscArg = match readings[i] {
            (Some(f), _) => OscArg::Float(f),
            (None, Some(n)) => OscArg::Int(n),
            (None, None) => OscArg::Other,
        };
        args.push(arg);
        i = i + 1;
    }
    args
}

/// Reads a datagram.
pub fn receive(datagram: &[u8]) -> (r: Result<Packet, DecodeError>)
    requires
        datagram@.len() <= MTU,
    ensures
        r is Ok <==> decoded(datagram@) is Ok,
        r matches Ok(packet) ==> content(packet) == told_apart(decoded(datagram@)->Ok_0),
        r matches Err(e) ==> e.reason@ == decoded(datagram@)->Err_0,
{
    match decode_udp(datagram) {
        Ok(Some((addr, readings))) => {
            let args: Vec<OscArg> = arguments(readings.as_slice());
            Ok(Packet::Message(Message { addr, args }))
        },
        Ok(None) => Ok(Packet::Bundle),
        Err(reason) => Err(DecodeError { reason }),
    }
}

/// The first argument, if there is any.
pub open spec fn first_of(args: Seq<OscArg>) -> Option<OscArg> {
    if args.len() == 0 {
        None
    } else {
        Some(args[0])
    }
}

/// The number that an argument is.
pub open spec fn float_of(first: Option<OscArg>) -> Option<u32> {
    match first {
        Some(OscArg::Float(f)) => Some(f),
        _ => None,
    }
}

/// The integer that an argument is.
pub open spec fn int_of(first: Option<OscArg>) -> Option<i32> {
    match first {
        Some(OscArg::Int(i)) => Some(i),
        _ => None,
    }
}

/// The first argument of a message, if it is a single-precision number. Later
/// arguments do not count.
pub fn float_osc(packet: &Packet) -> (r: Option<u32>)
    ensures
        r == match content(*packet) {
            Some((_, args)) => if args.len() == 0 {
                None
            } else {
                float_of(Some(args[0]))
            },
            None => None,
        },
{
    match packet {
        Packet::Message(message) => {
            if message.args.len() == 0 {
                return None;
            }
            match message.args[0] {
                OscArg::Float(f) => Some(f),
                _ => None,
            }
        },
        Packet::Bundle => None,
    }
}

/// The first argument of a message, if it is a 32-bit integer. Later arguments do
/// not count.
pub fn int_osc(packet: &Packet) -> (r: Option<i32>)
    ensures
        r == match content(*packet) {
            Some((_, args)) => if args.len() == 0 {
                None
            } else {
                int_of(Some(args[0]))
            },
            None => None,
        },
{
    match packet {
        Packet::Message(message) => {
            if message.args.len() == 0 {
                return None;
            }
            match message.args[0] {
                OscArg::Int(i) => Some(i),
                _ => None,
            }
        },
        Packet::Bundle => None,
    }
}

/// What is left to do after a packet was applied.
#[derive(Debug)]
pub enum Control {
    /// Nothing.
    Done,
    /// Go fullscreen, or leave it.
    Fullscreen(bool),
    /// Tell that there is no such address.
    UnknownAddress(String),
}

/// The visualizer after a message.
pub open spec fn applied(app: App, addr: Seq<char>, args: Seq<OscArg>) -> App {
    let (number, integer) = (float_of(first_of(args)), int_of(first_of(args)));
    if addr == "/factor"@ && number is Some {
        App { factor: number->0, ..app }
    } else if addr == "/exponent"@ && number is Some {
        App { exponent: number->0, ..app }
    } else if addr == "/bwmode"@ && integer is Some {
        App { bwmode: (integer->0 % 256) as u8, ..app }
    } else if addr == "/offsetx"@ && integer is Some {
        App { offset_x: integer->0, ..app }
    } else if addr == "/offsety"@ && integer is Some {
        App { offset_y: integer->0, ..app }
    } else if addr == "/zoom"@ && number is Some {
        App { zoom: number->0, ..app }
    } else {
        app
    }
}

/// Whether a message asks for fullscreen, or for leaving it, if it asks for either.
pub open spec fn fullscreen_asked(addr: Seq<char>, args: Seq<OscArg>) -> Option<bool> {
    if addr == "/fullscreen"@ {
        match int_of(first_of(args)) {
            Some(i) => Some(i != 0),
            None => None,
        }
    } else {
        None
    }
}

/// Whether the address is one of the controls.
pub open spec fn is_control(addr: Seq<char>) -> bool {
    ||| addr == "/factor"@
    ||| addr == "/exponent"@
    ||| addr == "/bwmode"@
    ||| addr == "/offsetx"@
    ||| addr == "/offsety"@
    ||| addr == "/zoom"@
    ||| addr == "/fullscreen"@
}

/// The addresses of the controls are told apart by their text.
proof fn lemma_addresses_are_distinct()
    ensures
        "/factor"@.len() == 7,
        "/bwmode"@.len() == 7,
        "/factor"@ != "/bwmode"@,
        "/exponent"@.len() == 9,
        "/offsetx"@.len() == 8,
        "/offsety"@.len() == 8,
        "/offsetx"@ != "/offsety"@,
        "/zoom"@.len() == 5,
        "/fullscreen"@.len() == 11,
{
    reveal_strlit("/factor");
    reveal_strlit("/exponent");
    reveal_strlit("/bwmode");
    reveal_strlit("/offsetx");
    reveal_strlit("/offsety");
    reveal_strlit("/zoom");
    reveal_strlit("/fullscreen");
    assert("/factor"@[1] == 'f' && "/bwmode"@[1] == 'b');
    assert("/offsetx"@[7] == 'x' && "/offsety"@[7] == 'y');
}

/// The low byte of an integer.
fn low_byte(i: i32) -> (r: u8)
    ensures
        r == i as int % 256,
{
    let wide: i64 = i as i64 + 0x8000_0000;
    (wide % 256) as u8
}

/// Applies a packet. A message to a control whose first argument has the wrong
/// type, or that has none, changes nothing; neither does a bundle.
pub fn control(app: &mut App, packet: &Packet) -> (r: Control)
    ensures
        content(*packet) is None ==> r is Done && *final(app) == *old(app),
        content(*packet) matches Some((addr, args)) ==> {
            &&& *final(app) == applied(*old(app), addr, args)
            &&& fullscreen_asked(addr, args) == match r {
                Control::Fullscreen(on) => Some(on),
                _ => None,
            }
            &&& match r {
                Control::Done => {
                    &&& is_control(addr)
                    &&& addr == "/fullscreen"@ ==> int_of(first_of(args)) is None
                },
                Control::Fullscreen(on) => {
                    &&& addr == "/fullscreen"@
                    &&& int_of(first_of(args)) matches Some(i) && on == (i != 0)
                },
                Control::UnknownAddress(unknown) => !is_control(addr) && unknown@ == addr,
            }
        },
{
    proof {
        lemma_addresses_are_distinct();
    }
    let message: &Message = match packet {
        Packet::Message(message) => message,
        Packet::Bundle => {
            return Control::Done;
        },
    };
    let addr: &str = message.addr.as_str();
    if same(addr, "/factor") {
        if let Some(f) = float_osc(packet) {
            app.factor = f;
        }
    } else if same(addr, "/exponent") {
        if let Some(f) = float_osc(packet) {
            app.exponent = f;
        }
    } else if same(addr, "/bwmode") {
        if let Some(i) = int_osc(packet) {
            app.bwmode = low_byte(i);
        }
    } else if same(addr, "/offsetx") {
        if let Some(i) = int_osc(packet) {
            app.offset_x = i;
        }
    } else if same(addr, "/offsety") {
        if let Some(i) = int_osc(packet) {
            app.offset_y = i;
        }
    } else if same(addr, "/zoom") {
        if let Some(f) = float_osc(packet) {
            app.zoom = f;
        }
    } else if same(addr, "/fullscreen") {
        if let Some(i) = int_osc(packet) {
            return Control::Fullscreen(i != 0);
        }
    } else {
        return Control::UnknownAddress(message.addr.clone());
    }
    Control::Done
}

/// A message changes what it sets and nothing else: the windows, the picture,
/// the table and the counts stay, and so does whether the parts fit together.
pub proof fn law_messages_only_set_their_control(
    app: App,
    addr: Seq<char>,
    args: Seq<OscArg>,
)
    ensures
        applied(app, addr, args) == (App {
            factor: applied(app, addr, args).factor,
            exponent: applied(app, addr, args).exponent,
            bwmode: applied(app, addr, args).bwmode,
            offset_x: applied(app, addr, args).offset_x,
            offset_y: applied(app, addr, args).offset_y,
            zoom: applied(app, addr, args).zoom,
            ..app
        }),
        addr != "/factor"@ ==> applied(app, addr, args).factor == app.factor,
        addr != "/exponent"@ ==> applied(app, addr, args).exponent == app.exponent,
        addr != "/bwmode"@ ==> applied(app, addr, args).bwmode == app.bwmode,
        addr != "/offsetx"@ ==> applied(app, addr, args).offset_x == app.offset_x,
        addr != "/offsety"@ ==> applied(app, addr, args).offset_y == app.offset_y,
        addr != "/zoom"@ ==> applied(app, addr, args).zoom == app.zoom,
        app.wf() ==> applied(app, addr, args).wf(),
{
}

/// Sending a message again changes nothing more, and the last message to a
/// control decides, if its argument is of the same kind.
pub proof fn law_last_message_decides(
    app: App,
    addr: Seq<char>,
    earlier: Seq<OscArg>,
    later: Seq<OscArg>,
)
    ensures
        applied(applied(app, addr, later), addr, later) == applied(app, addr, later),
        (float_of(first_of(earlier)) is Some && float_of(first_of(later)) is Some) || (int_of(
            first_of(earlier),
        ) is Some && int_of(first_of(later)) is Some) ==> applied(
            applied(app, addr, earlier),
            addr,
            later,
        ) == applied(app, addr, later),
{
}

/// Only the first argument of a message counts.
pub proof fn law_later_arguments_do_not_count(
    app: App,
    addr: Seq<char>,
    args: Seq<OscArg>,
    more: Seq<OscArg>,
)
    requires
        args.len() > 0,
    ensures
        applied(app, addr, args + more) == applied(app, addr, args),
{
    assert(first_of(args + more) == first_of(args));
}

/// Messages to different controls may come in either order.
pub proof fn law_messages_to_different_controls_commute(
    app: App,
    a: Seq<char>,
    args_a: Seq<OscArg>,
    b: Seq<char>,
    args_b: Seq<OscArg>,
)
    requires
        a != b,
    ensures
        applied(applied(app, a, args_a), b, args_b) == applied(
            applied(app, b, args_b),
            a,
            args_a,
        ),
{
}

/// After a message each control holds exactly what was sent, whatever it held before
/// and whatever follows the first argument. The tone mode takes the low byte, which
/// is the integer itself where that is a byte.
pub proof fn law_controls_hold_what_was_sent(app: App, f: u32, i: i32, more: Seq<OscArg>)
    ensures
        ({
            let number = seq![OscArg::Float(f)] + more;
            let integer = seq![OscArg::Int(i)] + more;
            let mode = applied(app, "/bwmode"@, integer).bwmode as int;
            &&& applied(app, "/factor"@, number).factor == f
            &&& applied(app, "/exponent"@, number).exponent == f
            &&& applied(app, "/zoom"@, number).zoom == f
            &&& applied(app, "/offsetx"@, integer).offset_x == i
            &&& applied(app, "/offsety"@, integer).offset_y == i
            &&& 0 <= i <= 255 ==> mode == i
            &&& (i - mode) % 256 == 0
        }),
{
    lemma_addresses_are_distinct();
    let number = seq![OscArg::Float(f)] + more;
    let integer = seq![OscArg::Int(i)] + more;
    assert(number[0] == OscArg::Float(f) && integer[0] == OscArg::Int(i));
    vstd::arithmetic::div_mod::lemma_fundamental_div_mod(i as int, 256);
    vstd::arithmetic::div_mod::lemma_fundamental_div_mod_converse(
        i - i as int % 256,
        256,
        i as int / 256,
        0,
    );
}

/// An argument of the wrong kind, or none at all, changes nothing.
pub proof fn law_wrong_arguments_change_nothing(
    app: App,
    addr: Seq<char>,
    f: u32,
    i: i32,
    more: Seq<OscArg>,
)
    ensures
        applied(app, addr, Seq::empty()) == app,
        applied(app, addr, seq![OscArg::Other] + more) == app,
        addr == "/factor"@ || addr == "/exponent"@ || addr == "/zoom"@ ==> applied(
            app,
            addr,
            seq![OscArg::Int(i)] + more,
        ) == app,
        addr == "/bwmode"@ || addr == "/offsetx"@ || addr == "/offsety"@ ==> applied(
            app,
            addr,
            seq![OscArg::Float(f)] + more,
        ) == app,
        addr == "/fullscreen"@ || !is_control(addr) ==> applied(
            app,
            addr,
            seq![OscArg::Int(i)] + more,
        ) == app && applied(app, addr, seq![OscArg::Float(f)] + more) == app,
{
    lemma_addresses_are_distinct();
    assert((seq![OscArg::Other] + more)[0] == OscArg::Other);
    assert((seq![OscArg::Int(i)] + more)[0] == OscArg::Int(i));
    assert((seq![OscArg::Float(f)] + more)[0] == OscArg::Float(f));
}

/// The seven controls, and no other addresses, are known.
pub proof fn law_known_addresses(addr: Seq<char>)
    ensures
        is_control("/factor"@) && is_control("/exponent"@) && is_control("/bwmode"@),
        is_control("/offsetx"@) && is_control("/offsety"@) && is_control("/zoom"@),
        is_control("/fullscreen"@),
        is_control(addr) ==> addr == "/factor"@ || addr == "/exponent"@ || addr == "/bwmode"@
            || addr == "/offsetx"@ || addr == "/offsety"@ || addr == "/zoom"@ || addr
            == "/fullscreen"@,
{
}

/// Whether a message is for fullscreen is decided by its first argument alone, an
/// integer.
pub proof fn law_first_arguments_are_read(f: u32, i: i32, more: Seq<OscArg>)
    ensures
        int_of(first_of(seq![OscArg::Int(i)] + more)) == Some(i),
        float_of(first_of(seq![OscArg::Float(f)] + more)) == Some(f),
        int_of(first_of(seq![OscArg::Float(f)] + more)) is None,
        float_of(first_of(seq![OscArg::Int(i)] + more)) is None,
        int_of(first_of(seq![OscArg::Other] + more)) is None,
        float_of(first_of(seq![OscArg::Other] + more)) is None,
        int_of(first_of(Seq::empty())) is None,
        float_of(first_of(Seq::empty())) is None,
{
    assert((seq![OscArg::Other] + more)[0] == OscArg::Other);
    assert((seq![OscArg::Int(i)] + more)[0] == OscArg::Int(i));
    assert((seq![OscArg::Float(f)] + more)[0] == OscArg::Float(f));
}

/// The arguments of a decoded message are kept, all of them and in order, each as
/// what the decoder read: a number as that number, an integer as that integer.
pub proof fn law_arguments_are_kept(
    addr: Seq<char>,
    readings: Seq<Reading>,
    k: int,
    f: u32,
    i: i32,
)
    requires
        0 <= k < readings.len(),
    ensures
        told_apart(None) is None,
        told_apart(Some((addr, readings))) matches Some((kept, args)) && kept == addr && args.len()
            == readings.len() && (readings[k] == (Some(f), None::<i32>) ==> args[k]
            == OscArg::Float(f)) && (readings[k] == (None::<u32>, Some(i)) ==> args[k]
            == OscArg::Int(i)) && (readings[k] == (None::<u32>, None::<i32>) ==> args[k]
            == OscArg::Other),
{
}

/// What a packet holds is the address and the arguments of its message.
pub proof fn law_packets_hold_their_message(message: Message)
    ensures
        content(Packet::Message(message)) == Some((message.addr@, message.args@)),
        content(Packet::Bundle) is None,
{
}

/// Every integer but zero asks for fullscreen, negative ones too, and zero for
/// leaving it; no other argument and no other address asks for either.
pub proof fn law_integers_ask_for_fullscreen(
    addr: Seq<char>,
    args: Seq<OscArg>,
    f: u32,
    i: i32,
    more: Seq<OscArg>,
)
    ensures
        i > 0 || i < 0 ==> fullscreen_asked("/fullscreen"@, seq![OscArg::Int(i)] + more) == Some(
            true,
        ),
        fullscreen_asked("/fullscreen"@, seq![OscArg::Int(0)] + more) == Some(false),
        fullscreen_asked("/fullscreen"@, seq![OscArg::Float(f)] + more) is None,
        fullscreen_asked("/fullscreen"@, Seq::empty()) is None,
        addr != "/fullscreen"@ ==> fullscreen_asked(addr, args) is None,
{
    assert((seq![OscArg::Int(i)] + more)[0] == OscArg::Int(i));
    assert((seq![OscArg::Int(0)] + more)[0] == OscArg::Int(0));
    assert((seq![OscArg::Float(f)] + more)[0] == OscArg::Float(f));
}

} // verus!
