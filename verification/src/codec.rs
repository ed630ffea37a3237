//! Wire codec for the link channel protocol.
//!
//! Outgoing commands and incoming events travel as compact JSON text frames.
//! The exact text of every frame is pinned down by spec functions here, and
//! the executable encoders are proved to produce it.

use vstd::prelude::*;

verus! {

/// The addressing tuple the remote protocol requires inside every command
/// envelope; serialized as a nested JSON document flattened into a string.
#[derive(Debug)]
pub struct Identifier {
    pub channel: String,
    pub id: usize,
}

/// An outgoing protocol command. `identifier` and (for `Announce`/`Check`)
/// `data` hold already-serialized sub-documents; encoding embeds them as
/// JSON strings (double encoding is part of the wire contract).
#[derive(Debug)]
pub enum Outgoing {
    Subscribe { identifier: String },
    Unsubscribe { identifier: String },
    Announce { data: String, identifier: String },
    Check { data: String, identifier: String, command: String },
}

/// The payload of an update event.
#[derive(Debug)]
pub struct WallpaperUpdate {
    pub id: usize,
    pub post_url: Option<String>,
    pub set_by: Option<String>,
}

/// An incoming protocol event.
#[derive(Debug)]
pub enum Incoming {
    Welcome,
    Ping { message: u64 },
    ConfirmSubscription { identifier: String },
    Disconnect { reason: String, reconnect: bool },
    Message { identifier: String, message: WallpaperUpdate },
}

/// Mathematical model of an outgoing command: the same shape over `Seq<char>`.
pub enum CommandV {
    Subscribe { identifier: Seq<char> },
    Unsubscribe { identifier: Seq<char> },
    Announce { data: Seq<char>, identifier: Seq<char> },
    Check { data: Seq<char>, identifier: Seq<char>, command: Seq<char> },
}

/// Mathematical model of an update payload.
pub struct UpdateV {
    pub id: usize,
    pub post_url: Option<Seq<char>>,
    pub set_by: Option<Seq<char>>,
}

/// Mathematical model of an incoming event.
pub enum EventV {
    Welcome,
    Ping { message: u64 },
    ConfirmSubscription { identifier: Seq<char> },
    Disconnect { reason: Seq<char>, reconnect: bool },
    Message { identifier: Seq<char>, message: UpdateV },
}

impl View for Outgoing {
    type V = CommandV;

    open spec fn view(&self) -> CommandV {
        match self {
            Outgoing::Subscribe { identifier } => CommandV::Subscribe { identifier: identifier@ },
            Outgoing::Unsubscribe { identifier } => CommandV::Unsubscribe {
                identifier: identifier@,
            },
            Outgoing::Announce { data, identifier } => CommandV::Announce {
                data: data@,
                identifier: identifier@,
            },
            Outgoing::Check { data, identifier, command } => CommandV::Check {
                data: data@,
                identifier: identifier@,
                command: command@,
            },
        }
    }
}

impl View for WallpaperUpdate {
    type V = UpdateV;

    open spec fn view(&self) -> UpdateV {
        UpdateV {
            id: self.id,
            post_url: match self.post_url {
                Option::Some(ref u) => Option::Some(u@),
                Option::None => Option::None,
            },
            set_by: match self.set_by {
                Option::Some(ref s) => Option::Some(s@),
                Option::None => Option::None,
            },
        }
    }
}

impl View for Incoming {
    type V = EventV;

    open spec fn view(&self) -> EventV {
        match self {
            Incoming::Welcome => EventV::Welcome,
            Incoming::Ping { message } => EventV::Ping { message: *message },
            Incoming::ConfirmSubscription { identifier } => EventV::ConfirmSubscription {
                identifier: identifier@,
            },
            Incoming::Disconnect { reason, reconnect } => EventV::Disconnect {
                reason: reason@,
                reconnect: *reconnect,
            },
            Incoming::Message { identifier, message } => EventV::Message {
                identifier: identifier@,
                message: message@,
            },
        }
    }
}

/// The lowercase hexadecimal digit character for `d < 16`.
pub open spec fn hex_char(d: nat) -> char {
    if d == 0 {
        '0'
    } else if d == 1 {
        '1'
    } else if d == 2 {
        '2'
    } else if d == 3 {
        '3'
    } else if d == 4 {
        '4'
    } else if d == 5 {
        '5'
    } else if d == 6 {
        '6'
    } else if d == 7 {
        '7'
    } else if d == 8 {
        '8'
    } else if d == 9 {
        '9'
    } else if d == 10 {
        'a'
    } else if d == 11 {
        'b'
    } else if d == 12 {
        'c'
    } else if d == 13 {
        'd'
    } else if d == 14 {
        'e'
    } else {
        'f'
    }
}

/// How one character is written inside a JSON string: quote and backslash
/// are escaped, the control characters with short escapes use them, the
/// other control characters are written `\u00xx`, and everything else
/// stands as itself.
pub open spec fn escape_char(c: char) -> Seq<char> {
    if c == '"' {
        seq!['\\', '"']
    } else if c == '\\' {
        seq!['\\', '\\']
    } else if c == '\u{8}' {
        seq!['\\', 'b']
    } else if c == '\t' {
        seq!['\\', 't']
    } else if c == '\n' {
        seq!['\\', 'n']
    } else if c == '\u{c}' {
        seq!['\\', 'f']
    } else if c == '\r' {
        seq!['\\', 'r']
    } else if (c as u32) < 32 {
        seq!['\\', 'u', '0', '0', hex_char((c as u32 / 16) as nat), hex_char(
            (c as u32 % 16) as nat,
        )]
    } else {
        seq![c]
    }
}

/// A string's content as written inside a JSON string literal.
pub open spec fn escape(s: Seq<char>) -> Seq<char>
    decreases s.len(),
{
    if s.len() == 0 {
        Seq::empty()
    } else {
        escape_char(s[0]) + escape(s.skip(1))
    }
}

/// The decimal digit character for `d < 10`.
pub open spec fn digit_char(d: nat) -> char {
    if d == 0 {
        '0'
    } else if d == 1 {
        '1'
    } else if d == 2 {
        '2'
    } else if d == 3 {
        '3'
    } else if d == 4 {
        '4'
    } else if d == 5 {
        '5'
    } else if d == 6 {
        '6'
    } else if d == 7 {
        '7'
    } else if d == 8 {
        '8'
    } else {
        '9'
    }
}

/// The usual decimal rendering of a natural number, most significant digit
/// first, no leading zeros (a single `'0'` for zero).
pub open spec fn dec(n: nat) -> Seq<char>
    decreases n,
{
    if n < 10 {
        seq![digit_char(n)]
    } else {
        dec(n / 10) + seq![digit_char(n % 10)]
    }
}

/// The wire text of an `Identifier`: a compact JSON object with the channel
/// name and the numeric id.
pub open spec fn identifier_wire(channel: Seq<char>, id: usize) -> Seq<char> {
    "{\"channel\":\""@ + escape(channel) + "\",\"id\":"@ + dec(id as nat) + "}"@
}

/// The wire text of an outgoing command. Field order matches the remote
/// protocol: the tagged variants lead with `command`, the untagged `Check`
/// shape carries its `command` field last.
pub open spec fn encoded(c: CommandV) -> Seq<char> {
    match c {
        CommandV::Subscribe { identifier } => "{\"command\":\"subscribe\",\"identifier\":\""@
            + escape(identifier) + "\"}"@,
        CommandV::Unsubscribe { identifier } => "{\"command\":\"unsubscribe\",\"identifier\":\""@
            + escape(identifier) + "\"}"@,
        CommandV::Announce { data, identifier } => "{\"command\":\"message\",\"data\":\""@
            + escape(data) + "\",\"identifier\":\""@ + escape(identifier) + "\"}"@,
        CommandV::Check { data, identifier, command } => "{\"data\":\""@ + escape(data)
            + "\",\"identifier\":\""@ + escape(identifier) + "\",\"command\":\""@ + escape(command)
            + "\"}"@,
    }
}

/// Relies on `String::push`: appends exactly the one character.
#[verifier::external_body]
pub(crate) fn push_char(s: &mut String, c: char)
    ensures
        final(s)@ == old(s)@.push(c),
{
    s.push(c);
}

/// The lowercase hexadecimal digit character, as executable code.
fn hex_char_x(d: u32) -> (r: char)
    requires
        d < 16,
    ensures
        r == hex_char(d as nat),
{
    if d == 0 {
        '0'
    } else if d == 1 {
        '1'
    } else if d == 2 {
        '2'
    } else if d == 3 {
        '3'
    } else if d == 4 {
        '4'
    } else if d == 5 {
        '5'
    } else if d == 6 {
        '6'
    } else if d == 7 {
        '7'
    } else if d == 8 {
        '8'
    } else if d == 9 {
        '9'
    } else if d == 10 {
        'a'
    } else if d == 11 {
        'b'
    } else if d == 12 {
        'c'
    } else if d == 13 {
        'd'
    } else if d == 14 {
        'e'
    } else {
        'f'
    }
}

/// Appends the JSON-string escaping of `piece` to `out`.
fn push_escaped(out: &mut String, piece: &str)
    ensures
        final(out)@ == old(out)@ + escape(piece@),
{
    let n = piece.unicode_len();
    let mut i: usize = 0;
    while i < n
        invariant
            n == piece@.len(),
            i <= n,
            out@ == old(out)@ + escape(piece@.take(i as int)),
        decreases n - i,
    {
        let c = piece.get_char(i);
        if c == '"' {
            push_char(out, '\\');
            push_char(out, '"');
        } else if c == '\\' {
            push_char(out, '\\');
            push_char(out, '\\');
        } else if c == '\u{8}' {
            push_char(out, '\\');
            push_char(out, 'b');
        } else if c == '\t' {
            push_char(out, '\\');
            push_char(out, 't');
        } else if c == '\n' {
            push_char(out, '\\');
            push_char(out, 'n');
        } else if c == '\u{c}' {
            push_char(out, '\\');
            push_char(out, 'f');
        } else if c == '\r' {
            push_char(out, '\\');
            push_char(out, 'r');
        } else if (c as u32) < 32 {
            let u = c as u32;
            push_char(out, '\\');
            push_char(out, 'u');
            push_char(out, '0');
            push_char(out, '0');
            push_char(out, hex_char_x(u / 16));
            push_char(out, hex_char_x(u % 16));
        } else {
            push_char(out, c);
        }
        proof {
            lemma_escape_take_step(piece@, i as int);
            assert(out@ =~= old(out)@ + escape(piece@.take(i + 1))) by {
                assert(escape(piece@.take(i + 1)) == escape(piece@.take(i as int)) + escape_char(
                    piece@[i as int],
                ));
            }
        }
        i = i + 1;
    }
    proof {
        assert(piece@.take(n as int) == piece@);
    }
}

/// Appends the one digit character for `d`.
fn push_digit(out: &mut String, d: u64)
    requires
        d < 10,
    ensures
        final(out)@ == old(out)@.push(digit_char(d as nat)),
{
    let c: char = if d == 0 {
        '0'
    } else if d == 1 {
        '1'
    } else if d == 2 {
        '2'
    } else if d == 3 {
        '3'
    } else if d == 4 {
        '4'
    } else if d == 5 {
        '5'
    } else if d == 6 {
        '6'
    } else if d == 7 {
        '7'
    } else if d == 8 {
        '8'
    } else {
        '9'
    };
    push_char(out, c);
}

/// Appends the decimal rendering of `n`.
fn push_dec(out: &mut String, n: u64)
    ensures
        final(out)@ == old(out)@ + dec(n as nat),
    decreases n,
{
    if n < 10 {
        push_digit(out, n);
        proof {
            assert(dec(n as nat) == seq![digit_char(n as nat)]);
            assert(old(out)@.push(digit_char(n as nat)) =~= old(out)@ + dec(n as nat));
        }
    } else {
        push_dec(out, n / 10);
        push_digit(out, n % 10);
        proof {
            assert(dec(n as nat) == dec(n as nat / 10) + seq![digit_char(n as nat % 10)]);
            assert((old(out)@ + dec((n / 10) as nat)).push(digit_char((n % 10) as nat)) =~= old(
                out,
            )@ + dec(n as nat));
        }
    }
}

/// The wire text of an identifier for the link channel with the given id.
pub open spec fn link_identifier(id: usize) -> Seq<char> {
    identifier_wire("LinkChannel"@, id)
}

/// Serializes an `Identifier` to its compact JSON wire text.
pub fn encode_identifier(identifier: &Identifier) -> (r: String)
    ensures
        r@ == identifier_wire(identifier.channel@, identifier.id),
{
    let mut out = String::new();
    out.append("{\"channel\":\"");
    push_escaped(&mut out, identifier.channel.as_str());
    out.append("\",\"id\":");
    push_dec(&mut out, identifier.id as u64);
    out.append("}");
    proof {
        assert(identifier.id as u64 as nat == identifier.id as nat);
        assert(out@ =~= identifier_wire(identifier.channel@, identifier.id));
    }
    out
}

/// Serializes an outgoing command to its wire text.
pub fn encode(command: &Outgoing) -> (r: String)
    ensures
        r@ == encoded(command@),
{
    let mut out = String::new();
    match command {
        Outgoing::Subscribe { identifier } => {
            out.append("{\"command\":\"subscribe\",\"identifier\":\"");
            push_escaped(&mut out, identifier.as_str());
            out.append("\"}");
        },
        Outgoing::Unsubscribe { identifier } => {
            out.append("{\"command\":\"unsubscribe\",\"identifier\":\"");
            push_escaped(&mut out, identifier.as_str());
            out.append("\"}");
        },
        Outgoing::Announce { data, identifier } => {
            out.append("{\"command\":\"message\",\"data\":\"");
            push_escaped(&mut out, data.as_str());
            out.append("\",\"identifier\":\"");
            push_escaped(&mut out, identifier.as_str());
            out.append("\"}");
        },
        Outgoing::Check { data, identifier, command } => {
            out.append("{\"data\":\"");
            push_escaped(&mut out, data.as_str());
            out.append("\",\"identifier\":\"");
            push_escaped(&mut out, identifier.as_str());
            out.append("\",\"command\":\"");
            push_escaped(&mut out, command.as_str());
            out.append("\"}");
        },
    }
    proof {
        assert(out@ =~= encoded(command@));
    }
    out
}

/// The action payload announcing this client to a channel.
pub open spec fn announce_data() -> Seq<char> {
    "{\"client\":\"2wall2taker-chewtoy/0.1.0\",\"action\":\"announce_client\"}"@
}

/// The action payload asking the channel to repeat its current state.
pub open spec fn check_data() -> Seq<char> {
    "{\"action\":\"check\"}"@
}

/// The full wire text of a subscribe command for link `id`.
pub open spec fn subscribe_wire(id: usize) -> Seq<char> {
    encoded(CommandV::Subscribe { identifier: link_identifier(id) })
}

/// The full wire text of an unsubscribe command for link `id`.
pub open spec fn unsubscribe_wire(id: usize) -> Seq<char> {
    encoded(CommandV::Unsubscribe { identifier: link_identifier(id) })
}

/// The full wire text of an announce command for link `id`.
pub open spec fn announce_wire(id: usize) -> Seq<char> {
    encoded(CommandV::Announce { data: announce_data(), identifier: link_identifier(id) })
}

/// The full wire text of a check command for link `id`.
pub open spec fn check_wire(id: usize) -> Seq<char> {
    encoded(
        CommandV::Check { data: check_data(), identifier: link_identifier(id), command: "message"@ },
    )
}

/// Builds the link-channel identifier for `id`.
fn link_identifier_message(id: usize) -> (r: String)
    ensures
        r@ == link_identifier(id),
{
    let identifier = Identifier { channel: String::from_str("LinkChannel"), id };
    encode_identifier(&identifier)
}

/// The subscribe frame for link `id`.
pub fn subscribe_message(id: usize) -> (r: String)
    ensures
        r@ == subscribe_wire(id),
{
    let msg = Outgoing::Subscribe { identifier: link_identifier_message(id) };
    encode(&msg)
}

/// The unsubscribe frame for link `id`.
pub fn unsubscribe_message(id: usize) -> (r: String)
    ensures
        r@ == unsubscribe_wire(id),
{
    let msg = Outgoing::Unsubscribe { identifier: link_identifier_message(id) };
    encode(&msg)
}

/// The announce frame for link `id`: declares this client's identity.
pub fn announce_message(id: usize) -> (r: String)
    ensures
        r@ == announce_wire(id),
{
    let data = String::from_str("{\"client\":\"2wall2taker-chewtoy/0.1.0\",\"action\":\"announce_client\"}");
    let msg = Outgoing::Announce { data, identifier: link_identifier_message(id) };
    encode(&msg)
}

/// The check frame for link `id`: asks the channel to repeat its state.
pub fn check_message(id: usize) -> (r: String)
    ensures
        r@ == check_wire(id),
{
    let data = String::from_str("{\"action\":\"check\"}");
    let msg = Outgoing::Check {
        data,
        identifier: link_identifier_message(id),
        command: String::from_str("message"),
    };
    encode(&msg)
}

/// Splitting the last character off a prefix splits its escaping.
proof fn lemma_escape_take_step(s: Seq<char>, i: int)
    requires
        0 <= i < s.len(),
    ensures
        escape(s.take(i + 1)) == escape(s.take(i)) + escape_char(s[i]),
    decreases i,
{
    if i == 0 {
        let t1 = s.take(1);
        assert(t1.len() == 1);
        assert(t1[0] == s[0]);
        assert(t1.skip(1) =~= Seq::<char>::empty());
        assert(escape(Seq::<char>::empty()) == Seq::<char>::empty());
        assert(escape(t1) == escape_char(s[0]) + escape(t1.skip(1)));
        assert(escape(t1) =~= escape_char(s[0]));
        assert(s.take(0) =~= Seq::<char>::empty());
        assert(escape(s.take(0)) + escape_char(s[0]) =~= escape_char(s[0]));
    } else {
        let t = s.skip(1);
        assert(s.take(i + 1).skip(1) =~= t.take(i));
        assert(s.take(i).skip(1) =~= t.take(i - 1));
        assert(s.take(i + 1)[0] == s[0]);
        assert(s.take(i)[0] == s[0]);
        lemma_escape_take_step(t, i - 1);
        assert(escape(s.take(i + 1)) == escape_char(s[0]) + escape(t.take(i)));
        assert(escape(t.take(i)) == escape(t.take(i - 1)) + escape_char(t[i - 1]));
        assert(t[i - 1] == s[i]);
        assert(escape_char(s[0]) + (escape(t.take(i - 1)) + escape_char(s[i])) =~= (escape_char(
            s[0],
        ) + escape(t.take(i - 1))) + escape_char(s[i]));
        assert(escape(s.take(i)) == escape_char(s[0]) + escape(t.take(i - 1)));
    }
}

} // verus!
