//! The per-connection session buffer and the dispatcher that answers a
//! request against the store.

use vstd::prelude::*;
use vstd::utf8::encode_utf8;

use crate::command::{
    lower_of, lowercase, resp_output_to_parsed_command, request_of, texts_of, Command, CommandModel,
    ParsedCommand,
};
use crate::decimal::{parse_u64_bytes, parse_unsigned_upto};
use crate::parser::{decode, ParseError, Parser, RESPOutput, RespValue};
use crate::response_helper::{
    append_bytes, encode, encode_value, send_bulk_string_response, send_error_response,
};
use crate::store::{
    entry_written, is_expired_in, key_texts, RedisStore, SetOptionalArgs, StoreModel,
};
use crate::{reports, AppError};

verus! {

/// The texts of `args` one after another, with nothing between them.
pub open spec fn concat_all(args: Seq<Seq<char>>) -> Seq<char>
    decreases args.len(),
{
    if args.len() == 0 {
        Seq::empty()
    } else {
        concat_all(args.drop_last()) + args.last()
    }
}

/// The expiry a write asks for through its optional `EX seconds` or
/// `PX milliseconds` pair, in milliseconds: the pair must be the third and
/// fourth arguments, and a variant or duration that cannot be read, or a
/// zero duration, asks for none.
pub open spec fn expiry_ms_of(args: Seq<Seq<char>>) -> Option<nat> {
    if args.len() != 4 {
        None
    } else {
        let variant = lower_of(args[2]);
        let duration = parse_unsigned_upto(encode_utf8(args[3]), u64::MAX as nat);
        let ms = if variant == "ex"@ {
            match duration {
                Some(d) => if d * 1000 <= u64::MAX {
                    Some(d * 1000)
                } else {
                    None
                },
                None => None,
            }
        } else if variant == "px"@ {
            duration
        } else {
            None
        };
        match ms {
            Some(d) => if d != 0 {
                Some(d)
            } else {
                None
            },
            None => None,
        }
    }
}

pub open spec fn set_options_of(args: Seq<Seq<char>>) -> Option<SetOptionalArgs> {
    match expiry_ms_of(args) {
        Some(d) => Some(SetOptionalArgs { expire_in_ms: Some(d as u64) }),
        None => None,
    }
}

/// The reply to a request made at `now` against a store holding `m`.
pub open spec fn reply_for(c: CommandModel, m: StoreModel, now: int) -> RespValue {
    match c.command {
        None => RespValue::Error("Unrecognised command"@),
        Some(Command::PING) => RespValue::SimpleString("PONG"@),
        Some(Command::ECHO) => RespValue::BulkString(concat_all(c.args)),
        Some(Command::GET) => if c.args.len() < 1 {
            RespValue::Error("Wrong number of arguments"@)
        } else if !m.contains_key(c.args[0]) || is_expired_in(m, c.args[0], now) {
            RespValue::Null
        } else {
            RespValue::BulkString(m[c.args[0]].value)
        },
        Some(Command::SET) => if c.args.len() < 2 {
            RespValue::Error("Wrong number of arguments"@)
        } else {
            RespValue::BulkString("OK"@)
        },
    }
}

/// What the store holds after a request made at `now` against `m`: a read
/// that finds its key expired removes it, and a write replaces the key's
/// entry whole.
pub open spec fn store_after(c: CommandModel, m: StoreModel, now: int) -> StoreModel {
    match c.command {
        Some(Command::GET) => if c.args.len() >= 1 && is_expired_in(m, c.args[0], now) {
            m.remove(c.args[0])
        } else {
            m
        },
        Some(Command::SET) => if c.args.len() >= 2 {
            m.insert(c.args[0], entry_written(c.args[1], set_options_of(c.args), now))
        } else {
            m
        },
        _ => m,
    }
}

/// The request writes to the store when made at `now` against `m`.
pub open spec fn needs_write(c: CommandModel, m: StoreModel, now: int) -> bool {
    ||| c.command == Some(Command::SET) && c.args.len() >= 2
    ||| c.command == Some(Command::GET) && c.args.len() >= 1 && is_expired_in(m, c.args[0], now)
}

/// The bytes received on one connection that do not yet form a whole request.
pub struct ClientInput {
    input: Vec<u8>,
}

impl View for ClientInput {
    type V = Seq<u8>;

    closed spec fn view(&self) -> Seq<u8> {
        self.input@
    }
}

impl ClientInput {
    pub fn new() -> (r: ClientInput)
        ensures
            r@ == Seq::<u8>::empty(),
    {
        ClientInput { input: Vec::new() }
    }

    pub fn get_input(&self) -> (r: &[u8])
        ensures
            r@ == self@,
    {
        self.input.as_slice()
    }

    pub fn append_input(&mut self, input: &[u8])
        ensures
            final(self)@ == old(self)@ + input@,
    {
        append_bytes(&mut self.input, input);
    }

    /// Empties the buffer.
    pub fn reset(&mut self)
        ensures
            final(self)@ == Seq::<u8>::empty(),
    {
        self.input = Vec::new();
    }

    /// Appends `buffer` and decodes one value from the front of all that is held.
    pub fn parse_input(&mut self, buffer: &[u8]) -> (r: Result<RESPOutput, ParseError>)
        ensures
            final(self)@ == old(self)@ + buffer@,
            match decode(final(self)@) {
                Ok((v, _)) => r matches Ok(o) && o@ == v,
                Err(e) => r == Err::<RESPOutput, ParseError>(e),
            },
    {
        self.append_input(buffer);
        match Parser::parse_resp(self.get_input()) {
            Ok((value, _)) => Ok(value),
            Err(e) => Err(e),
        }
    }

    /// Takes the bytes of one read. An empty read means the peer closed the
    /// connection. Otherwise the bytes join the buffer; once it holds a whole
    /// value, the buffer is emptied and the request it stands for returned.
    pub fn receive(&mut self, bytes: &[u8]) -> (r: Result<ParsedCommand, AppError>)
        ensures
            bytes@.len() == 0 ==> final(self)@ == old(self)@ && (r matches Err(
                AppError::ConnectionClosed(m),
            ) && m@ == "Connection closed"@),
            bytes@.len() > 0 ==> match decode(old(self)@ + bytes@) {
                Ok((v, _)) => r matches Ok(c) && c@ == request_of(v) && final(self)@
                    == Seq::<u8>::empty(),
                Err(e) => final(self)@ == old(self)@ + bytes@ && (r matches Err(a) && reports(
                    a,
                    e,
                )),
            },
    {
        if bytes.len() == 0 {
            return Err(AppError::ConnectionClosed(String::from_str("Connection closed")));
        }
        match self.parse_input(bytes) {
            Ok(value) => {
                let parsed = resp_output_to_parsed_command(&value);
                self.reset();
                Ok(parsed)
            },
            Err(e) => Err(AppError::from(e)),
        }
    }
}

impl ClientInput {
    /// Reads the optional expiry pair of a write's arguments.
    pub fn determine_set_optional_args(&self, args: &Vec<String>) -> (r: Option<SetOptionalArgs>)
        ensures
            r == set_options_of(texts_of(args@)),
    {
        if args.len() != 4 {
            return None;
        }
        let variant = lowercase(args[2].as_str());
        let duration = parse_u64_bytes(args[3].as_str().as_bytes());
        let ms: Option<u64> = if variant == String::from_str("ex") {
            match duration {
                Some(d) => if d <= u64::MAX / 1000 {
                    Some(d * 1000)
                } else {
                    None
                },
                None => None,
            }
        } else if variant == String::from_str("px") {
            duration
        } else {
            None
        };
        match ms {
            Some(d) => if d != 0 {
                Some(SetOptionalArgs { expire_in_ms: Some(d) })
            } else {
                None
            },
            None => None,
        }
    }

    fn echo_text(args: &Vec<String>) -> (r: String)
        ensures
            r@ == concat_all(texts_of(args@)),
    {
        let ghost texts = texts_of(args@);
        let mut result = String::new();
        let mut i: usize = 0;
        assert(texts.subrange(0, 0) =~= Seq::<Seq<char>>::empty());
        while i < args.len()
            invariant
                i <= args@.len(),
                texts == texts_of(args@),
                result@ == concat_all(texts.subrange(0, i as int)),
            decreases args@.len() - i,
        {
            result.append(args[i].as_str());
            assert(texts.subrange(0, i + 1).drop_last() =~= texts.subrange(0, i as int));
            i = i + 1;
        }
        assert(texts.subrange(0, i as int) =~= texts);
        result
    }

    /// The reply to a request that leaves the store as it is.
    fn reply_without_write(&self, store: &RedisStore, parsed: &ParsedCommand, now: i64) -> (r: Vec<
        u8,
    >)
        requires
            !needs_write(parsed@, store@, now as int),
        ensures
            r@ == encode_value(reply_for(parsed@, store@, now as int)),
    {
        let args = parsed.args();
        match parsed.command() {
            None => send_error_response("Unrecognised command"),
            Some(Command::PING) => encode(&RESPOutput::SimpleString(String::from_str("PONG"))),
            Some(Command::ECHO) => encode(&RESPOutput::BulkString(Self::echo_text(args))),
            Some(Command::GET) => {
                if args.len() < 1 {
                    return send_error_response("Wrong number of arguments");
                }
                send_bulk_string_response(store.get(args[0].as_str()))
            },
            Some(Command::SET) => send_error_response("Wrong number of arguments"),
        }
    }

    fn delete_expired_keys(&self, store: &mut RedisStore, key: &str)
        ensures
            final(store)@ == old(store)@.remove(key@),
    {
        let mut keys: Vec<&str> = Vec::new();
        keys.push(key);
        proof {
            let texts = key_texts(keys@);
            assert(texts =~= seq![key@]);
            assert(texts.to_set() =~= set![key@]) by {
                assert(texts[0] == key@);
            }
        }
        store.delete(keys);
        assert(store@ =~= old(store)@.remove(key@));
    }

    /// Answers a request made at `now`, reading and writing `store`; returns
    /// the reply's bytes.
    pub fn respond_at(&self, store: &mut RedisStore, parsed: &ParsedCommand, now: i64) -> (r: Vec<u8>)
        ensures
            r@ == encode_value(reply_for(parsed@, old(store)@, now as int)),
            final(store)@ == store_after(parsed@, old(store)@, now as int),
    {
        let args = parsed.args();
        match parsed.command() {
            Some(Command::GET) => {
                if args.len() >= 1 && store.is_key_expired_at(args[0].as_str(), now) {
                    self.delete_expired_keys(store, args[0].as_str());
                    return send_bulk_string_response(None);
                }
            },
            Some(Command::SET) => {
                if args.len() >= 2 {
                    let optional_args = self.determine_set_optional_args(args);
                    store.set_at(args[0].as_str(), args[1].as_str(), &optional_args, now);
                    return send_bulk_string_response(Some("OK"));
                }
            },
            _ => {},
        }
        self.reply_without_write(store, parsed, now)
    }

    /// Answers a request at the clock's time, reading and writing `store`;
    /// returns the reply's bytes.
    pub fn respond(&self, store: &mut RedisStore, parsed: ParsedCommand) -> (r: Vec<u8>)
        ensures
            exists|now: int|
                #![trigger store_after(parsed@, old(store)@, now)]
                r@ == encode_value(reply_for(parsed@, old(store)@, now)) && final(store)@
                    == store_after(parsed@, old(store)@, now),
    {
        let now = crate::store::current_time_millis();
        self.respond_at(store, &parsed, now)
    }

    /// Answers a request made at `now` when that needs no write to the store;
    /// `None` when it does.
    pub fn respond_read_only(&self, store: &RedisStore, parsed: &ParsedCommand, now: i64) -> (r:
        Option<Vec<u8>>)
        ensures
            r is None <==> needs_write(parsed@, store@, now as int),
            r matches Some(b) ==> b@ == encode_value(reply_for(parsed@, store@, now as int))
                && store_after(parsed@, store@, now as int) == store@,
    {
        let args = parsed.args();
        match parsed.command() {
            Some(Command::GET) => {
                if args.len() >= 1 && store.is_key_expired_at(args[0].as_str(), now) {
                    return None;
                }
            },
            Some(Command::SET) => {
                if args.len() >= 2 {
                    return None;
                }
            },
            _ => {},
        }
        Some(self.reply_without_write(store, parsed, now))
    }
}

/// A read of `key`.
pub open spec fn get_request(key: Seq<char>) -> CommandModel {
    CommandModel { command: Some(Command::GET), args: seq![key] }
}

/// A read of a key that the store does not hold gives the null bulk string
/// and leaves the store as it is.
pub proof fn lemma_get_absent(m: StoreModel, key: Seq<char>, now: int)
    requires
        !m.contains_key(key),
    ensures
        reply_for(get_request(key), m, now) == RespValue::Null,
        store_after(get_request(key), m, now) == m,
{
}

/// After a write that asks for no expiry, a read of its key at any later
/// time gives the value written and leaves the store as it is.
pub proof fn lemma_get_without_expiry(m: StoreModel, set: CommandModel, written_at: int, now: int)
    requires
        set.command == Some(Command::SET),
        set.args.len() >= 2,
        expiry_ms_of(set.args) is None,
    ensures
        reply_for(get_request(set.args[0]), store_after(set, m, written_at), now)
            == RespValue::BulkString(set.args[1]),
        store_after(get_request(set.args[0]), store_after(set, m, written_at), now) == store_after(
            set,
            m,
            written_at,
        ),
{
}

/// After a write at `written_at` that asks for an expiry `d` milliseconds
/// on, a read of its key gives the value written while the time is before
/// `written_at + d`; from then on it gives the null bulk string, and the key
/// is gone from the store right after that read.
pub proof fn lemma_get_with_expiry(
    m: StoreModel,
    set: CommandModel,
    d: nat,
    written_at: int,
    now: int,
)
    requires
        set.command == Some(Command::SET),
        set.args.len() >= 2,
        expiry_ms_of(set.args) == Some(d),
        written_at + d <= i64::MAX,
    ensures
        now < written_at + d ==> reply_for(
            get_request(set.args[0]),
            store_after(set, m, written_at),
            now,
        ) == RespValue::BulkString(set.args[1]) && store_after(
            get_request(set.args[0]),
            store_after(set, m, written_at),
            now,
        ) == store_after(set, m, written_at),
        now >= written_at + d ==> reply_for(
            get_request(set.args[0]),
            store_after(set, m, written_at),
            now,
        ) == RespValue::Null && !store_after(
            get_request(set.args[0]),
            store_after(set, m, written_at),
            now,
        ).contains_key(set.args[0]),
{
}

/// A write replaces its key's entry whole: whatever two stores held under
/// the key before, they hold the same entry after the same write, made of
/// the new value, the time of the write and the expiry the write asked for;
/// every other key keeps its entry.
pub proof fn lemma_set_replaces_entry(m1: StoreModel, m2: StoreModel, set: CommandModel, now: int)
    requires
        set.command == Some(Command::SET),
        set.args.len() >= 2,
    ensures
        store_after(set, m1, now)[set.args[0]] == store_after(set, m2, now)[set.args[0]],
        store_after(set, m1, now)[set.args[0]] == entry_written(
            set.args[1],
            set_options_of(set.args),
            now,
        ),
        store_after(set, m1, now) == m1.insert(
            set.args[0],
            entry_written(set.args[1], set_options_of(set.args), now),
        ),
{
}

} // verus!
