//! Commands of the key-value store, read from arrays of bulk strings.
use crate::error::Failure;
use crate::error::RespError;
use crate::frame::frames_model;
use crate::frame::Array;
use crate::frame::BulkString;
use crate::frame::RespFrame;
use crate::model::Frame;
use crate::text::string_from_utf8;
use vstd::prelude::*;
use vstd::std_specs::convert::FromSpecImpl;
use vstd::std_specs::convert::TryFromSpecImpl;
use vstd::string::StringExecFns;
use vstd::string::StringSliceAdditionalSpecFns;
use vstd::utf8::decode_utf8;
use vstd::utf8::encode_utf8;
use vstd::utf8::valid_utf8;

verus! {

/// A failure of a command as contracts speak of it: its kind, and the text
/// of its message or the failure of the codec that it carries.
pub enum CommandErrorKind {
    InvalidCommand(Seq<char>),
    InvalidArguments(Seq<char>),
    RespError(Failure),
}

/// Why an array is not the command asked for.
#[derive(Debug)]
pub enum CommandError {
    InvalidCommand(String),
    InvalidArguments(String),
    RespError(RespError),
}

impl View for CommandError {
    type V = CommandErrorKind;

    open spec fn view(&self) -> CommandErrorKind {
        match self {
            CommandError::InvalidCommand(message) => CommandErrorKind::InvalidCommand(message@),
            CommandError::InvalidArguments(message) => CommandErrorKind::InvalidArguments(
                message@,
            ),
            CommandError::RespError(e) => CommandErrorKind::RespError(e@),
        }
    }
}

impl From<RespError> for CommandError {
    fn from(e: RespError) -> (r: CommandError) {
        CommandError::RespError(e)
    }
}

impl FromSpecImpl<RespError> for CommandError {
    open spec fn obeys_from_spec() -> bool {
        true
    }

    open spec fn from_spec(e: RespError) -> CommandError {
        CommandError::RespError(e)
    }
}

/// What carries out a command and answers with a frame.
pub trait CommandExecutor {
    fn execute(&self, cmd: Command) -> RespFrame;
}

/// A command of the store.
pub enum Command {
    SetCommand(SetCommand),
    Get(Get),
    HGet(HGet),
    HSet(HSet),
    HGetAll(HGetAll),
}

/// `set key value`
#[derive(Debug)]
pub struct SetCommand {
    pub key: String,
    pub value: RespFrame,
}

/// `get key`
#[derive(Debug)]
pub struct Get {
    pub key: String,
}

/// `hget key field`
#[derive(Debug)]
pub struct HGet {
    pub key: String,
    pub field: String,
}

/// `hset key field value`
#[derive(Debug)]
pub struct HSet {
    pub key: String,
    pub field: String,
    pub value: RespFrame,
}

/// `hgetall key`
#[derive(Debug)]
pub struct HGetAll {
    pub key: String,
}

/// An upper-case ASCII letter as its lower-case letter, any other byte as
/// it is.
pub open spec fn lower(b: u8) -> u8 {
    if 65 <= b <= 90 {
        (b + 32) as u8
    } else {
        b
    }
}

/// A frame names the command `name`: it is a bulk string that holds the
/// name, in letters of either case.
pub open spec fn names_command(f: Frame, name: Seq<char>) -> Result<(), CommandErrorKind> {
    match f {
        Frame::BulkString(b) => {
            if b.len() == encode_utf8(name).len() && forall|i: int|
                0 <= i < b.len() ==> lower(#[trigger] b[i]) == encode_utf8(name)[i] {
                Ok(())
            } else {
                Err(CommandErrorKind::InvalidCommand(invalid_name_text(b)))
            }
        },
        _ => Err(CommandErrorKind::InvalidArguments("invalid command arguments"@)),
    }
}

/// The frames of `value` from index `from` on name the commands `names`
/// from that index on; the first frame that does not decides the error.
pub open spec fn names_commands(value: Seq<Frame>, names: Seq<&'static str>, from: int) -> Result<
    (),
    CommandErrorKind,
>
    decreases names.len() - from,
{
    if from < 0 || from >= names.len() || from >= value.len() {
        Ok(())
    } else {
        match names_command(value[from], names[from]@) {
            Ok(_) => names_commands(value, names, from + 1),
            Err(e) => Err(e),
        }
    }
}

/// An array is a command: it has a frame for each name and each argument,
/// and its first frames name the command.
pub open spec fn valid_command(value: Seq<Frame>, names: Seq<&'static str>, n_args: nat) -> Result<
    (),
    CommandErrorKind,
> {
    if value.len() != n_args + names.len() {
        Err(
            CommandErrorKind::InvalidArguments(
                arity_text(joined_names(names, names.len()), n_args),
            ),
        )
    } else {
        names_commands(value, names, 0)
    }
}

/// The frames of an array from index `start` on.
pub open spec fn args_from(value: Seq<Frame>, start: nat) -> Seq<Frame> {
    if start <= value.len() {
        value.skip(start as int)
    } else {
        Seq::empty()
    }
}

/// The text of a frame that must be a bulk string; `message` says what is
/// wrong with a frame of another type.
pub open spec fn text_arg(f: Frame, message: Seq<char>) -> Result<Seq<char>, CommandErrorKind> {
    match f {
        Frame::BulkString(b) => if valid_utf8(b) {
            Ok(decode_utf8(b))
        } else {
            Err(CommandErrorKind::RespError(Failure::Utf8Error(b)))
        },
        _ => Err(CommandErrorKind::InvalidArguments(message)),
    }
}

/// The message that `format!` makes of a bulk string that should have
/// named a command.
pub uninterp spec fn invalid_name_text(name: Seq<u8>) -> Seq<char>;

/// The message that `format!` makes of the names of a command and of the
/// number of its arguments.
pub uninterp spec fn arity_text(names: Seq<char>, n_args: nat) -> Seq<char>;

/// `format!` with the frame that should have named the command; its bytes
/// decide the message.
#[verifier::external_body]
fn invalid_name_message(name: &BulkString) -> (message: String)
    ensures
        message@ == invalid_name_text(name@),
{
    format!("invalid command name {:?}", name)
}

/// The first `k` of `names`, with a blank between one and the next.
pub open spec fn joined_names(names: Seq<&'static str>, k: nat) -> Seq<char>
    decreases k,
{
    if k == 0 || k > names.len() {
        Seq::empty()
    } else if k == 1 {
        names[0]@
    } else {
        joined_names(names, (k - 1) as nat) + seq![' '] + names[k - 1]@
    }
}

/// The names of a command, with a blank between one and the next.
pub fn join_names(names: &[&'static str]) -> (joined: String)
    ensures
        joined@ == joined_names(names@, names@.len()),
{
    let mut joined = String::new();
    let mut i: usize = 0;
    while i < names.len()
        invariant
            i <= names@.len(),
            joined@ == joined_names(names@, i as nat),
        decreases names@.len() - i,
    {
        if i > 0 {
            proof {
                reveal_strlit(" ");
                assert(" "@ =~= seq![' ']);
            }
            joined.append(" ");
        }
        joined.append(names[i]);
        i += 1;
        assert(joined@ =~= joined_names(names@, i as nat));
    }
    joined
}

/// `format!` with the names of the command and the number of its
/// arguments; the two decide the message.
#[verifier::external_body]
fn arity_message(names: &str, n_args: usize) -> (message: String)
    ensures
        message@ == arity_text(names@, n_args as nat),
{
    format!(" invalid number of arguments for command {}, must have exact {}", names, n_args)
}

/// Whether the bytes `have`, with upper-case letters made lower-case, are
/// the bytes `want`.
pub fn eq_ignore_upper(have: &[u8], want: &[u8]) -> (r: bool)
    ensures
        r == (have@.len() == want@.len() && forall|i: int|
            0 <= i < have@.len() ==> lower(#[trigger] have@[i]) == want@[i]),
{
    if have.len() != want.len() {
        return false;
    }
    let mut i: usize = 0;
    while i < have.len()
        invariant
            i <= have@.len() == want@.len(),
            forall|j: int| 0 <= j < i ==> lower(#[trigger] have@[j]) == want@[j],
        decreases have@.len() - i,
    {
        let b = have[i];
        let low: u8 = if 65 <= b && b <= 90 {
            b + 32
        } else {
            b
        };
        if low != want[i] {
            return false;
        }
        i += 1;
    }
    true
}

/// Checks that an array has a frame for each of `names` and `n_args` more,
/// and that its first frames are bulk strings that hold the names, in
/// letters of either case.
pub fn validate_command(value: &Array, names: &[&'static str], n_args: usize) -> (r: Result<
    (),
    CommandError,
>)
    ensures
        match valid_command(value@, names@, n_args as nat) {
            Ok(_) => r is Ok,
            Err(kind) => r matches Err(e) && e@ == kind,
        },
{
    let have = value.0.len();
    let fits = match n_args.checked_add(names.len()) {
        Some(wanted) => have == wanted,
        None => false,
    };
    assert(value@.len() == have);
    assert(fits == (value@.len() == n_args + names@.len()));
    if !fits {
        let joined = join_names(names);
        return Err(CommandError::InvalidArguments(arity_message(joined.as_str(), n_args)));
    }
    let mut i: usize = 0;
    while i < names.len()
        invariant
            i <= names@.len() <= value.0@.len(),
            value@.len() == n_args + names@.len(),
            names_commands(value@, names@, 0) == names_commands(value@, names@, i as int),
        decreases names@.len() - i,
    {
        assert(value@[i as int] == value.0@[i as int]@);
        match &value.0[i] {
            RespFrame::BulkString(bs) => {
                assert(value@[i as int] == Frame::BulkString(bs.0@));
                if !eq_ignore_upper(bs.0.as_slice(), names[i].as_bytes()) {
                    assert(names_command(value@[i as int], names@[i as int]@) == Err::<
                        (),
                        CommandErrorKind,
                    >(CommandErrorKind::InvalidCommand(invalid_name_text(bs.0@))));
                    return Err(CommandError::InvalidCommand(invalid_name_message(bs)));
                }
                assert(names_command(value@[i as int], names@[i as int]@) is Ok);
            },
            _ => {
                return Err(
                    CommandError::InvalidArguments("invalid command arguments".to_owned()),
                );
            },
        }
        i += 1;
    }
    Ok(())
}

/// The frames of an array from index `start` on.
pub fn extract_args(value: Array, start: usize) -> (r: Result<Vec<RespFrame>, CommandError>)
    ensures
        r matches Ok(args) && frames_model(args@) == args_from(value@, start as nat),
{
    let mut frames = value.0;
    if start > frames.len() {
        let none: Vec<RespFrame> = Vec::new();
        assert(frames_model(none@) =~= Seq::<Frame>::empty());
        return Ok(none);
    }
    let args = frames.split_off(start);
    assert(frames_model(args@) =~= args_from(value@, start as nat));
    Ok(args)
}

/// Reads a frame that must be a bulk string as text; `message` says what
/// is wrong with a frame of another type.
pub fn take_text_arg(frame: RespFrame, message: &str) -> (r: Result<String, CommandError>)
    ensures
        match text_arg(frame@, message@) {
            Ok(text) => r matches Ok(s) && s@ == text,
            Err(kind) => r matches Err(e) && e@ == kind,
        },
{
    match frame {
        RespFrame::BulkString(bytes) => match string_from_utf8(bytes.0) {
            Ok(text) => Ok(text),
            Err(e) => Err(CommandError::RespError(RespError::Utf8Error(e))),
        },
        _ => Err(CommandError::InvalidArguments(message.to_owned())),
    }
}

/// The key of a `get`: the array is `get` and a key.
pub open spec fn get_command(value: Seq<Frame>) -> Result<Seq<char>, CommandErrorKind> {
    match valid_command(value, seq!["get"], 1) {
        Err(e) => Err(e),
        Ok(_) => text_arg(value[1], "invalid key"@),
    }
}

impl TryFrom<Array> for Get {
    type Error = CommandError;

    fn try_from(value: Array) -> (r: Result<Self, CommandError>)
        ensures
            match get_command(value@) {
                Ok(key) => r matches Ok(get) && get.key@ == key,
                Err(kind) => r matches Err(e) && e@ == kind,
            },
    {
        let names: [&'static str; 1] = ["get"];
        assert(names@.len() == 1);
        assert(names@[0] == "get");
        let names = names.as_slice();
        assert(names@ =~= seq!["get"]);
        match validate_command(&value, names, 1) {
            Ok(_) => {},
            Err(e) => {
                return Err(e);
            },
        }
        let mut args = match extract_args(value, 1) {
            Ok(args) => args,
            Err(e) => {
                return Err(e);
            },
        };
        assert(valid_command(value@, names@, 1) is Ok);
        assert(frames_model(args@).len() == args@.len());
        assert(args@.len() == 1);
        assert(frames_model(args@)[0] == value@[1]);
        let key = args.pop().unwrap();
        match take_text_arg(key, "invalid key") {
            Ok(key) => Ok(Get { key }),
            Err(e) => Err(e),
        }
    }
}

/// What `try_from` returns is stated by its own contract, over the views of
/// the frames.
impl TryFromSpecImpl<Array> for Get {
    open spec fn obeys_try_from_spec() -> bool {
        false
    }

    open spec fn try_from_spec(value: Array) -> Result<Self, Self::Error> {
        arbitrary()
    }
}

/// Reads two frames that must both be bulk strings as texts, the first
/// before the second.
pub open spec fn text_args(first: Frame, second: Frame) -> Result<
    (Seq<char>, Seq<char>),
    CommandErrorKind,
> {
    if !(first is BulkString && second is BulkString) {
        Err(CommandErrorKind::InvalidArguments("Invalid key or field"@))
    } else {
        match text_arg(first, "Invalid key or field"@) {
            Err(e) => Err(e),
            Ok(a) => match text_arg(second, "Invalid key or field"@) {
                Err(e) => Err(e),
                Ok(b) => Ok((a, b)),
            },
        }
    }
}

/// Reads two frames that must both be bulk strings as texts.
pub fn take_text_args(first: RespFrame, second: RespFrame) -> (r: Result<
    (String, String),
    CommandError,
>)
    ensures
        match text_args(first@, second@) {
            Ok((a, b)) => r matches Ok((s, t)) && s@ == a && t@ == b,
            Err(kind) => r matches Err(e) && e@ == kind,
        },
{
    match (first, second) {
        (RespFrame::BulkString(a), RespFrame::BulkString(b)) => {
            let a = match string_from_utf8(a.0) {
                Ok(text) => text,
                Err(e) => {
                    return Err(CommandError::RespError(RespError::Utf8Error(e)));
                },
            };
            match string_from_utf8(b.0) {
                Ok(b) => Ok((a, b)),
                Err(e) => Err(CommandError::RespError(RespError::Utf8Error(e))),
            }
        },
        _ => Err(CommandError::InvalidArguments("Invalid key or field".to_owned())),
    }
}

/// The key and the value of a `set`: the array is `set`, a key and a value.
pub open spec fn set_command(value: Seq<Frame>) -> Result<(Seq<char>, Frame), CommandErrorKind> {
    match valid_command(value, seq!["set"], 2) {
        Err(e) => Err(e),
        Ok(_) => match text_arg(value[1], "invalid key or value"@) {
            Err(e) => Err(e),
            Ok(key) => Ok((key, value[2])),
        },
    }
}

/// The key and the field of an `hget`: the array is `hget`, a key and a
/// field.
pub open spec fn hget_command(value: Seq<Frame>) -> Result<
    (Seq<char>, Seq<char>),
    CommandErrorKind,
> {
    match valid_command(value, seq!["hget"], 2) {
        Err(e) => Err(e),
        Ok(_) => text_args(value[1], value[2]),
    }
}

/// The key of an `hgetall`: the array is `hgetall` and a key.
pub open spec fn hgetall_command(value: Seq<Frame>) -> Result<Seq<char>, CommandErrorKind> {
    match valid_command(value, seq!["hgetall"], 1) {
        Err(e) => Err(e),
        Ok(_) => text_arg(value[1], "Invalid key"@),
    }
}

/// The key, the field and the value of an `hset`: the array is `hset`, a
/// key, a field and a value.
pub open spec fn hset_command(value: Seq<Frame>) -> Result<
    (Seq<char>, Seq<char>, Frame),
    CommandErrorKind,
> {
    match valid_command(value, seq!["hset"], 3) {
        Err(e) => Err(e),
        Ok(_) => match text_args(value[1], value[2]) {
            Err(e) => Err(e),
            Ok((key, field)) => Ok((key, field, value[3])),
        },
    }
}

impl TryFrom<Array> for SetCommand {
    type Error = CommandError;

    fn try_from(value: Array) -> (r: Result<Self, CommandError>)
        ensures
            match set_command(value@) {
                Ok((key, v)) => r matches Ok(set) && set.key@ == key && set.value@ == v,
                Err(kind) => r matches Err(e) && e@ == kind,
            },
    {
        let names: [&'static str; 1] = ["set"];
        let names = names.as_slice();
        assert(names@ =~= seq!["set"]);
        match validate_command(&value, names, 2) {
            Ok(_) => {},
            Err(e) => {
                return Err(e);
            },
        }
        let mut args = match extract_args(value, 1) {
            Ok(args) => args,
            Err(e) => {
                return Err(e);
            },
        };
        assert(valid_command(value@, names@, 2) is Ok);
        assert(frames_model(args@).len() == args@.len());
        assert(frames_model(args@)[0] == value@[1]);
        assert(frames_model(args@)[1] == value@[2]);
        let v = args.pop().unwrap();
        let key = args.pop().unwrap();
        match take_text_arg(key, "invalid key or value") {
            Ok(key) => Ok(SetCommand { key, value: v }),
            Err(e) => Err(e),
        }
    }
}

/// What `try_from` returns is stated by its own contract, over the views of
/// the frames.
impl TryFromSpecImpl<Array> for SetCommand {
    open spec fn obeys_try_from_spec() -> bool {
        false
    }

    open spec fn try_from_spec(value: Array) -> Result<Self, Self::Error> {
        arbitrary()
    }
}

impl TryFrom<Array> for HGet {
    type Error = CommandError;

    fn try_from(value: Array) -> (r: Result<Self, CommandError>)
        ensures
            match hget_command(value@) {
                Ok((key, field)) => r matches Ok(hget) && hget.key@ == key && hget.field@
                    == field,
                Err(kind) => r matches Err(e) && e@ == kind,
            },
    {
        let names: [&'static str; 1] = ["hget"];
        let names = names.as_slice();
        assert(names@ =~= seq!["hget"]);
        match validate_command(&value, names, 2) {
            Ok(_) => {},
            Err(e) => {
                return Err(e);
            },
        }
        let mut args = match extract_args(value, 1) {
            Ok(args) => args,
            Err(e) => {
                return Err(e);
            },
        };
        assert(valid_command(value@, names@, 2) is Ok);
        assert(frames_model(args@).len() == args@.len());
        assert(frames_model(args@)[0] == value@[1]);
        assert(frames_model(args@)[1] == value@[2]);
        let field = args.pop().unwrap();
        let key = args.pop().unwrap();
        match take_text_args(key, field) {
            Ok((key, field)) => Ok(HGet { key, field }),
            Err(e) => Err(e),
        }
    }
}

/// What `try_from` returns is stated by its own contract, over the views of
/// the frames.
impl TryFromSpecImpl<Array> for HGet {
    open spec fn obeys_try_from_spec() -> bool {
        false
    }

    open spec fn try_from_spec(value: Array) -> Result<Self, Self::Error> {
        arbitrary()
    }
}

impl TryFrom<Array> for HGetAll {
    type Error = CommandError;

    fn try_from(value: Array) -> (r: Result<Self, CommandError>)
        ensures
            match hgetall_command(value@) {
                Ok(key) => r matches Ok(hgetall) && hgetall.key@ == key,
                Err(kind) => r matches Err(e) && e@ == kind,
            },
    {
        let names: [&'static str; 1] = ["hgetall"];
        let names = names.as_slice();
        assert(names@ =~= seq!["hgetall"]);
        match validate_command(&value, names, 1) {
            Ok(_) => {},
            Err(e) => {
                return Err(e);
            },
        }
        let mut args = match extract_args(value, 1) {
            Ok(args) => args,
            Err(e) => {
                return Err(e);
            },
        };
        assert(valid_command(value@, names@, 1) is Ok);
        assert(frames_model(args@).len() == args@.len());
        assert(frames_model(args@)[0] == value@[1]);
        let key = args.pop().unwrap();
        match take_text_arg(key, "Invalid key") {
            Ok(key) => Ok(HGetAll { key }),
            Err(e) => Err(e),
        }
    }
}

/// What `try_from` returns is stated by its own contract, over the views of
/// the frames.
impl TryFromSpecImpl<Array> for HGetAll {
    open spec fn obeys_try_from_spec() -> bool {
        false
    }

    open spec fn try_from_spec(value: Array) -> Result<Self, Self::Error> {
        arbitrary()
    }
}

impl TryFrom<Array> for HSet {
    type Error = CommandError;

    fn try_from(value: Array) -> (r: Result<Self, CommandError>)
        ensures
            match hset_command(value@) {
                Ok((key, field, v)) => r matches Ok(hset) && hset.key@ == key && hset.field@
                    == field && hset.value@ == v,
                Err(kind) => r matches Err(e) && e@ == kind,
            },
    {
        let names: [&'static str; 1] = ["hset"];
        let names = names.as_slice();
        assert(names@ =~= seq!["hset"]);
        match validate_command(&value, names, 3) {
            Ok(_) => {},
            Err(e) => {
                return Err(e);
            },
        }
        let mut args = match extract_args(value, 1) {
            Ok(args) => args,
            Err(e) => {
                return Err(e);
            },
        };
        assert(valid_command(value@, names@, 3) is Ok);
        assert(frames_model(args@).len() == args@.len());
        assert(frames_model(args@)[0] == value@[1]);
        assert(frames_model(args@)[1] == value@[2]);
        assert(frames_model(args@)[2] == value@[3]);
        let v = args.pop().unwrap();
        let field = args.pop().unwrap();
        let key = args.pop().unwrap();
        match take_text_args(key, field) {
            Ok((key, field)) => Ok(HSet { key, field, value: v }),
            Err(e) => Err(e),
        }
    }
}

/// What `try_from` returns is stated by its own contract, over the views of
/// the frames.
impl TryFromSpecImpl<Array> for HSet {
    open spec fn obeys_try_from_spec() -> bool {
        false
    }

    open spec fn try_from_spec(value: Array) -> Result<Self, Self::Error> {
        arbitrary()
    }
}

} // verus!
