//! Requests: the commands the server understands and how they are read from
//! the bulk strings of a frame.
use vstd::prelude::*;
use crate::decoder::{digits_value, is_digit};
use crate::resp::{error_reply, error_spec, push_all};
use crate::store::{copy_bytes, ttl_of};

verus! {

/// Which part of the server information `INFO` asks for.
pub enum Section {
    All,
    Named(Vec<u8>),
}

/// A decoded request.
pub enum Command {
    Ping,
    Echo { message: Vec<u8> },
    Info { section: Section },
    SetValue { key: Vec<u8>, value: Vec<u8>, ttl_ms: Option<u64> },
    Get { key: Vec<u8> },
}

/// The model of a `Section`.
pub enum SectionSpec {
    All,
    Named(Seq<u8>),
}

/// The model of a `Command`.
pub enum CommandSpec {
    Ping,
    Echo(Seq<u8>),
    Info(SectionSpec),
    SetValue(Seq<u8>, Seq<u8>, Option<nat>),
    Get(Seq<u8>),
}

impl View for Section {
    type V = SectionSpec;

    open spec fn view(&self) -> SectionSpec {
        match self {
            Section::All => SectionSpec::All,
            Section::Named(name) => SectionSpec::Named(name@),
        }
    }
}

impl View for Command {
    type V = CommandSpec;

    open spec fn view(&self) -> CommandSpec {
        match self {
            Command::Ping => CommandSpec::Ping,
            Command::Echo { message } => CommandSpec::Echo(message@),
            Command::Info { section } => CommandSpec::Info(section@),
            Command::SetValue { key, value, ttl_ms } => CommandSpec::SetValue(
                key@,
                value@,
                ttl_of(*ttl_ms),
            ),
            Command::Get { key } => CommandSpec::Get(key@),
        }
    }
}

/// Why a frame is not a command. Each of these is answered with an error
/// reply; the connection stays open.
pub enum ProtocolError {
    /// The frame holds no bulk string at all.
    EmptyCommand,
    /// The verb is not one the server knows.
    UnknownCommand { verb: Vec<u8> },
    /// The verb is known but takes another number of arguments.
    WrongArity { verb: Vec<u8> },
    /// `SET` with four arguments whose third is not `PX`.
    SyntaxError,
    /// The millisecond count after `PX` is not a base-10 integer that fits 64 bits.
    InvalidInteger,
}

/// The model of a `ProtocolError`.
pub enum ErrorSpec {
    EmptyCommand,
    UnknownCommand(Seq<u8>),
    WrongArity(Seq<u8>),
    SyntaxError,
    InvalidInteger,
}

impl View for ProtocolError {
    type V = ErrorSpec;

    open spec fn view(&self) -> ErrorSpec {
        match self {
            ProtocolError::EmptyCommand => ErrorSpec::EmptyCommand,
            ProtocolError::UnknownCommand { verb } => ErrorSpec::UnknownCommand(verb@),
            ProtocolError::WrongArity { verb } => ErrorSpec::WrongArity(verb@),
            ProtocolError::SyntaxError => ErrorSpec::SyntaxError,
            ProtocolError::InvalidInteger => ErrorSpec::InvalidInteger,
        }
    }
}

/// `ERR empty command`
pub open spec fn text_empty() -> Seq<u8> {
    seq![69u8, 82u8, 82u8, 32u8, 101u8, 109u8, 112u8, 116u8, 121u8, 32u8, 99u8, 111u8, 109u8, 109u8, 97u8, 110u8, 100u8]
}

/// `ERR unknown command '`
pub open spec fn text_unknown_open() -> Seq<u8> {
    seq![69u8, 82u8, 82u8, 32u8, 117u8, 110u8, 107u8, 110u8, 111u8, 119u8, 110u8, 32u8, 99u8, 111u8, 109u8, 109u8, 97u8, 110u8, 100u8, 32u8, 39u8]
}

/// `ERR wrong number of arguments for '`
pub open spec fn text_arity_open() -> Seq<u8> {
    seq![69u8, 82u8, 82u8, 32u8, 119u8, 114u8, 111u8, 110u8, 103u8, 32u8, 110u8, 117u8, 109u8, 98u8, 101u8, 114u8, 32u8, 111u8, 102u8, 32u8, 97u8, 114u8, 103u8, 117u8, 109u8, 101u8, 110u8, 116u8, 115u8, 32u8, 102u8, 111u8, 114u8, 32u8, 39u8]
}

/// `' command`
pub open spec fn text_arity_close() -> Seq<u8> {
    seq![39u8, 32u8, 99u8, 111u8, 109u8, 109u8, 97u8, 110u8, 100u8]
}

/// `ERR syntax error`
pub open spec fn text_syntax() -> Seq<u8> {
    seq![69u8, 82u8, 82u8, 32u8, 115u8, 121u8, 110u8, 116u8, 97u8, 120u8, 32u8, 101u8, 114u8, 114u8, 111u8, 114u8]
}

/// `ERR value is not an integer or out of range`
pub open spec fn text_integer() -> Seq<u8> {
    seq![69u8, 82u8, 82u8, 32u8, 118u8, 97u8, 108u8, 117u8, 101u8, 32u8, 105u8, 115u8, 32u8, 110u8, 111u8, 116u8, 32u8, 97u8, 110u8, 32u8, 105u8, 110u8, 116u8, 101u8, 103u8, 101u8, 114u8, 32u8, 111u8, 114u8, 32u8, 111u8, 117u8, 116u8, 32u8, 111u8, 102u8, 32u8, 114u8, 97u8, 110u8, 103u8, 101u8]
}

/// The text of the error reply sent for `e`; it names the offending verb
/// where there is one.
pub open spec fn error_text(e: ErrorSpec) -> Seq<u8> {
    match e {
        ErrorSpec::EmptyCommand => text_empty(),
        ErrorSpec::UnknownCommand(verb) => text_unknown_open() + verb + seq![39u8],
        ErrorSpec::WrongArity(verb) => text_arity_open() + verb + text_arity_close(),
        ErrorSpec::SyntaxError => text_syntax(),
        ErrorSpec::InvalidInteger => text_integer(),
    }
}

impl ProtocolError {
    /// The error reply `-<text>\r\n` for this error.
    pub fn reply(&self) -> (r: Vec<u8>)
        ensures
            r@ == error_spec(error_text(self@)),
    {
        let empty: [u8; 17] = [69u8, 82u8, 82u8, 32u8, 101u8, 109u8, 112u8, 116u8, 121u8, 32u8, 99u8, 111u8, 109u8, 109u8, 97u8, 110u8, 100u8];
        assert(empty@ =~= text_empty());
        let unknown_open: [u8; 21] = [69u8, 82u8, 82u8, 32u8, 117u8, 110u8, 107u8, 110u8, 111u8, 119u8, 110u8, 32u8, 99u8, 111u8, 109u8, 109u8, 97u8, 110u8, 100u8, 32u8, 39u8];
        assert(unknown_open@ =~= text_unknown_open());
        let arity_open: [u8; 35] = [69u8, 82u8, 82u8, 32u8, 119u8, 114u8, 111u8, 110u8, 103u8, 32u8, 110u8, 117u8, 109u8, 98u8, 101u8, 114u8, 32u8, 111u8, 102u8, 32u8, 97u8, 114u8, 103u8, 117u8, 109u8, 101u8, 110u8, 116u8, 115u8, 32u8, 102u8, 111u8, 114u8, 32u8, 39u8];
        assert(arity_open@ =~= text_arity_open());
        let arity_close: [u8; 9] = [39u8, 32u8, 99u8, 111u8, 109u8, 109u8, 97u8, 110u8, 100u8];
        assert(arity_close@ =~= text_arity_close());
        let syntax: [u8; 16] = [69u8, 82u8, 82u8, 32u8, 115u8, 121u8, 110u8, 116u8, 97u8, 120u8, 32u8, 101u8, 114u8, 114u8, 111u8, 114u8];
        assert(syntax@ =~= text_syntax());
        let integer: [u8; 43] = [69u8, 82u8, 82u8, 32u8, 118u8, 97u8, 108u8, 117u8, 101u8, 32u8, 105u8, 115u8, 32u8, 110u8, 111u8, 116u8, 32u8, 97u8, 110u8, 32u8, 105u8, 110u8, 116u8, 101u8, 103u8, 101u8, 114u8, 32u8, 111u8, 114u8, 32u8, 111u8, 117u8, 116u8, 32u8, 111u8, 102u8, 32u8, 114u8, 97u8, 110u8, 103u8, 101u8];
        assert(integer@ =~= text_integer());
        let mut text: Vec<u8> = Vec::new();
        match self {
            ProtocolError::EmptyCommand => push_all(&mut text, &empty),
            ProtocolError::UnknownCommand { verb } => {
                push_all(&mut text, &unknown_open);
                push_all(&mut text, verb.as_slice());
                text.push(39u8);
            },
            ProtocolError::WrongArity { verb } => {
                push_all(&mut text, &arity_open);
                push_all(&mut text, verb.as_slice());
                push_all(&mut text, &arity_close);
            },
            ProtocolError::SyntaxError => push_all(&mut text, &syntax),
            ProtocolError::InvalidInteger => push_all(&mut text, &integer),
        }
        assert(text@ =~= error_text(self@));
        error_reply(text.as_slice())
    }
}

/// ASCII upper case of one byte; other bytes are kept.
pub open spec fn upper(b: u8) -> u8 {
    if 97 <= b && b <= 122 {
        (b - 32) as u8
    } else {
        b
    }
}

/// ASCII upper case of a byte string.
pub open spec fn upper_seq(s: Seq<u8>) -> Seq<u8> {
    s.map_values(|b: u8| upper(b))
}

pub open spec fn word_ping() -> Seq<u8> {
    seq![80u8, 73u8, 78u8, 71u8]
}

pub open spec fn word_echo() -> Seq<u8> {
    seq![69u8, 67u8, 72u8, 79u8]
}

pub open spec fn word_info() -> Seq<u8> {
    seq![73u8, 78u8, 70u8, 79u8]
}

pub open spec fn word_set() -> Seq<u8> {
    seq![83u8, 69u8, 84u8]
}

pub open spec fn word_get() -> Seq<u8> {
    seq![71u8, 69u8, 84u8]
}

pub open spec fn word_px() -> Seq<u8> {
    seq![80u8, 88u8]
}

/// A millisecond count: one or more ASCII digits whose value fits 64 bits.
pub open spec fn ttl_value(s: Seq<u8>) -> Option<nat> {
    if s.len() > 0 && (forall|i: int| 0 <= i < s.len() ==> is_digit(#[trigger] s[i]))
        && digits_value(s) <= u64::MAX {
        Some(digits_value(s))
    } else {
        None
    }
}

/// The command that the bulk strings of a frame spell, or why they spell none.
/// The verb and the `PX` token are matched without regard to ASCII case.
pub open spec fn command_of(items: Seq<Seq<u8>>) -> Result<CommandSpec, ErrorSpec> {
    if items.len() == 0 {
        Err(ErrorSpec::EmptyCommand)
    } else {
        let verb = upper_seq(items[0]);
        let argc = items.len() - 1;
        if verb == word_ping() {
            if argc == 0 {
                Ok(CommandSpec::Ping)
            } else {
                Err(ErrorSpec::WrongArity(items[0]))
            }
        } else if verb == word_echo() {
            if argc == 1 {
                Ok(CommandSpec::Echo(items[1]))
            } else {
                Err(ErrorSpec::WrongArity(items[0]))
            }
        } else if verb == word_info() {
            if argc == 0 {
                Ok(CommandSpec::Info(SectionSpec::All))
            } else if argc == 1 {
                Ok(CommandSpec::Info(SectionSpec::Named(items[1])))
            } else {
                Err(ErrorSpec::WrongArity(items[0]))
            }
        } else if verb == word_get() {
            if argc == 1 {
                Ok(CommandSpec::Get(items[1]))
            } else {
                Err(ErrorSpec::WrongArity(items[0]))
            }
        } else if verb == word_set() {
            if argc == 2 {
                Ok(CommandSpec::SetValue(items[1], items[2], None))
            } else if argc == 4 {
                if upper_seq(items[3]) != word_px() {
                    Err(ErrorSpec::SyntaxError)
                } else {
                    match ttl_value(items[4]) {
                        Some(t) => Ok(CommandSpec::SetValue(items[1], items[2], Some(t))),
                        None => Err(ErrorSpec::InvalidInteger),
                    }
                }
            } else {
                Err(ErrorSpec::WrongArity(items[0]))
            }
        } else {
            Err(ErrorSpec::UnknownCommand(items[0]))
        }
    }
}

/// Whether `s`, taken in ASCII upper case, is `word`.
fn is_word(s: &[u8], word: &[u8]) -> (r: bool)
    ensures
        r == (upper_seq(s@) == word@),
{
    if s.len() != word.len() {
        return false;
    }
    let mut i: usize = 0;
    while i < s.len()
        invariant
            s@.len() == word@.len(),
            i <= s@.len(),
            forall|j: int| 0 <= j < i ==> upper(s@[j]) == word@[j],
        decreases s@.len() - i,
    {
        let b = s[i];
        let u = if 97 <= b && b <= 122 {
            b - 32
        } else {
            b
        };
        if u != word[i] {
            assert(upper_seq(s@)[i as int] != word@[i as int]);
            return false;
        }
        i = i + 1;
    }
    assert(upper_seq(s@) =~= word@);
    true
}

proof fn lemma_digits_value_grows(s: Seq<u8>, k: int)
    requires
        0 <= k <= s.len(),
    ensures
        digits_value(s.subrange(0, k)) <= digits_value(s),
    decreases s.len() - k,
{
    if k < s.len() {
        lemma_digits_value_grows(s, k + 1);
        assert(s.subrange(0, k + 1).drop_last() =~= s.subrange(0, k));
    } else {
        assert(s.subrange(0, k) =~= s);
    }
}

/// Reads a millisecond count.
pub fn parse_ttl(s: &[u8]) -> (r: Option<u64>)
    ensures
        match r {
            Some(t) => ttl_value(s@) == Some(t as nat),
            None => ttl_value(s@) is None,
        },
{
    if s.len() == 0 {
        return None;
    }
    let mut v: u64 = 0;
    let mut i: usize = 0;
    while i < s.len()
        invariant
            i <= s@.len(),
            forall|j: int| 0 <= j < i ==> is_digit(#[trigger] s@[j]),
            v == digits_value(s@.subrange(0, i as int)),
        decreases s@.len() - i,
    {
        let b = s[i];
        if b < 48 || b > 57 {
            return None;
        }
        let d = (b - 48) as u64;
        assert(s@.subrange(0, i as int + 1).drop_last() =~= s@.subrange(0, i as int));
        if v > (u64::MAX - d) / 10 {
            proof {
                lemma_digits_value_grows(s@, i as int + 1);
                assert(v * 10 + d > u64::MAX) by (nonlinear_arith)
                    requires
                        v > (u64::MAX - d) / 10,
                        d <= 9,
                ;
            }
            return None;
        }
        proof {
            assert(v * 10 + d <= u64::MAX) by (nonlinear_arith)
                requires
                    v <= (u64::MAX - d) / 10,
                    d <= 9,
            ;
        }
        v = v * 10 + d;
        i = i + 1;
    }
    assert(s@.subrange(0, i as int) =~= s@);
    Some(v)
}

/// Reads the command spelled by the bulk strings of one frame.
pub fn parse_command(items: &Vec<Vec<u8>>) -> (r: Result<Command, ProtocolError>)
    ensures
        match r {
            Ok(c) => command_of(items@.map_values(|v: Vec<u8>| v@)) == Ok::<CommandSpec, ErrorSpec>(c@),
            Err(e) => command_of(items@.map_values(|v: Vec<u8>| v@)) == Err::<CommandSpec, ErrorSpec>(e@),
        },
{
    let ghost views = items@.map_values(|v: Vec<u8>| v@);
    if items.len() == 0 {
        return Err(ProtocolError::EmptyCommand);
    }
    let verb = items[0].as_slice();
    let argc = items.len() - 1;
    assert(views[0] == items@[0]@);
    let ping: [u8; 4] = [80u8, 73u8, 78u8, 71u8];
    let echo: [u8; 4] = [69u8, 67u8, 72u8, 79u8];
    let info: [u8; 4] = [73u8, 78u8, 70u8, 79u8];
    let get: [u8; 3] = [71u8, 69u8, 84u8];
    let set: [u8; 3] = [83u8, 69u8, 84u8];
    let px: [u8; 2] = [80u8, 88u8];
    assert(ping@ =~= word_ping());
    assert(echo@ =~= word_echo());
    assert(info@ =~= word_info());
    assert(get@ =~= word_get());
    assert(set@ =~= word_set());
    assert(px@ =~= word_px());
    if is_word(verb, &ping) {
        if argc == 0 {
            Ok(Command::Ping)
        } else {
            Err(ProtocolError::WrongArity { verb: copy_bytes(items[0].as_slice()) })
        }
    } else if is_word(verb, &echo) {
        if argc == 1 {
            assert(views[1] == items@[1]@);
            Ok(Command::Echo { message: copy_bytes(items[1].as_slice()) })
        } else {
            Err(ProtocolError::WrongArity { verb: copy_bytes(items[0].as_slice()) })
        }
    } else if is_word(verb, &info) {
        if argc == 0 {
            Ok(Command::Info { section: Section::All })
        } else if argc == 1 {
            assert(views[1] == items@[1]@);
            Ok(Command::Info { section: Section::Named(copy_bytes(items[1].as_slice())) })
        } else {
            Err(ProtocolError::WrongArity { verb: copy_bytes(items[0].as_slice()) })
        }
    } else if is_word(verb, &get) {
        if argc == 1 {
            assert(views[1] == items@[1]@);
            Ok(Command::Get { key: copy_bytes(items[1].as_slice()) })
        } else {
            Err(ProtocolError::WrongArity { verb: copy_bytes(items[0].as_slice()) })
        }
    } else if is_word(verb, &set) {
        if argc == 2 {
            assert(views[1] == items@[1]@);
            assert(views[2] == items@[2]@);
            Ok(Command::SetValue { key: copy_bytes(items[1].as_slice()), value: copy_bytes(items[2].as_slice()), ttl_ms: None })
        } else if argc == 4 {
            assert(views[3] == items@[3]@);
            assert(views[4] == items@[4]@);
            if !is_word(items[3].as_slice(), &px) {
                Err(ProtocolError::SyntaxError)
            } else {
                match parse_ttl(items[4].as_slice()) {
                    Some(t) => {
                        assert(views[1] == items@[1]@);
                        assert(views[2] == items@[2]@);
                        Ok(
                            Command::SetValue {
                                key: copy_bytes(items[1].as_slice()),
                                value: copy_bytes(items[2].as_slice()),
                                ttl_ms: Some(t),
                            },
                        )
                    },
                    None => Err(ProtocolError::InvalidInteger),
                }
            }
        } else {
            Err(ProtocolError::WrongArity { verb: copy_bytes(items[0].as_slice()) })
        }
    } else {
        Err(ProtocolError::UnknownCommand { verb: copy_bytes(items[0].as_slice()) })
    }
}

} // verus!
