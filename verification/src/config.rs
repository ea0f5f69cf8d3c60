//! The configuration of the tracker: the notify action, the settings, and
//! how the arguments of the command line make them.

use vstd::prelude::*;
use vstd::slice::slice_to_vec;
use vstd::string::{StrSliceExecFns, StringExecFns, StringSliceAdditionalSpecFns};
use vstd::utf8::encode_utf8;
use crate::bytes::to_array_20;
use crate::tracker::tracker_request::{decimal_value, parse_number};
use crate::tracker::tracker_response::{Ip, IpModel};

verus! {

/// One argument of the notify action.
#[derive(Debug, PartialEq, Clone)]
pub enum Token {
    /// A text that is handed on as it is.
    String(String),
    /// The place of the address that the action is run for.
    IP,
}

/// The mathematical model of a [`Token`].
pub enum TokenModel {
    Text(Seq<char>),
    Address,
}

impl View for Token {
    type V = TokenModel;

    open spec fn view(&self) -> TokenModel {
        match self {
            Token::String(text) => TokenModel::Text(text@),
            Token::IP => TokenModel::Address,
        }
    }
}

/// The program to run when an unexpected address is seen, and its
/// arguments.
#[derive(Debug, PartialEq, Clone)]
pub struct Action {
    /// The program.
    pub program: String,
    /// The arguments.
    pub args: Vec<Token>,
}

/// The mathematical model of an [`Action`].
pub struct ActionModel {
    pub program: Seq<char>,
    pub args: Seq<TokenModel>,
}

/// The models of a vector of tokens.
pub open spec fn tokens_view(tokens: Seq<Token>) -> Seq<TokenModel> {
    Seq::new(tokens.len(), |i: int| tokens[i]@)
}

/// The texts of a vector of strings.
pub open spec fn texts(strings: Seq<String>) -> Seq<Seq<char>> {
    Seq::new(strings.len(), |i: int| strings[i]@)
}

impl View for Action {
    type V = ActionModel;

    open spec fn view(&self) -> ActionModel {
        ActionModel { program: self.program@, args: tokens_view(self.args@) }
    }
}

/// The words of a text: what `str::split_whitespace` parts it into.
pub uninterp spec fn words(text: Seq<char>) -> Seq<Seq<char>>;

/// The words of `text`.
///
/// This calls `str::split_whitespace`, which yields the parts of the text
/// that stand between runs of Unicode white space. The words depend on the
/// text alone, and the contract gives them the name [`words`] without saying
/// more of them.
#[verifier::external_body]
pub(crate) fn split_words(text: &str) -> (parts: Vec<String>)
    ensures
        texts(parts@) == words(text@),
{
    text.split_whitespace().map(String::from).collect()
}

/// The token that a word stands for: `%IP` is the place of the address.
pub open spec fn token_of(word: Seq<char>) -> TokenModel {
    if word == "%IP"@ {
        TokenModel::Address
    } else {
        TokenModel::Text(word)
    }
}

/// The action that a sequence of words describes: the first word is the
/// program and the others are its arguments. No word is no action.
pub open spec fn action_of(parts: Seq<Seq<char>>) -> Result<ActionModel, &'static str> {
    if parts.len() == 0 {
        Err("Empty action field.")
    } else {
        Ok(
            ActionModel {
                program: parts[0],
                args: Seq::new((parts.len() - 1) as nat, |i: int| token_of(parts[i + 1])),
            },
        )
    }
}

/// The arguments of an action for the address `ip`.
pub open spec fn arguments_for(args: Seq<TokenModel>, ip: Seq<char>) -> Seq<Seq<char>> {
    Seq::new(
        args.len(),
        |i: int|
            match args[i] {
                TokenModel::Text(text) => text,
                TokenModel::Address => ip,
            },
    )
}

impl Action {
    /// The action that the words `parts` describe.
    pub fn from_words(parts: Vec<String>) -> (r: Result<Action, &'static str>)
        ensures
            match action_of(texts(parts@)) {
                Ok(action) => r matches Ok(found) && found@ == action,
                Err(e) => r matches Err(found) && found == e,
            },
    {
        if parts.len() == 0 {
            return Err("Empty action field.");
        }
        let marker = String::from_str("%IP");
        let program = parts[0].clone();
        let mut args: Vec<Token> = Vec::new();
        let mut i: usize = 1;
        while i < parts.len()
            invariant
                1 <= i <= parts.len(),
                marker@ == "%IP"@,
                args.len() == i - 1,
                forall|k: int|
                    0 <= k < args.len() ==> (#[trigger] args@[k])@ == token_of(parts@[k + 1]@),
            decreases parts.len() - i,
        {
            if parts[i] == marker {
                args.push(Token::IP);
            } else {
                args.push(Token::String(parts[i].clone()));
            }
            i += 1;
        }
        let action = Action { program, args };
        assert(action@.args =~= action_of(texts(parts@))->Ok_0.args);
        Ok(action)
    }

    /// The action that a text describes: its first word is the program and
    /// its other words are the arguments.
    pub fn try_from(value: String) -> (r: Result<Action, &'static str>)
        ensures
            match action_of(words(value@)) {
                Ok(action) => r matches Ok(found) && found@ == action,
                Err(e) => r matches Err(found) && found == e,
            },
    {
        Action::from_words(split_words(value.as_str()))
    }

    /// The arguments to run the program with for the address `ip`: each
    /// place of the address is filled with `ip`.
    pub fn arguments(&self, ip: &str) -> (list: Vec<String>)
        ensures
            texts(list@) == arguments_for(self@.args, ip@),
    {
        let mut list: Vec<String> = Vec::new();
        let mut i: usize = 0;
        while i < self.args.len()
            invariant
                i <= self.args.len(),
                list.len() == i,
                forall|k: int|
                    0 <= k < i ==> (#[trigger] list@[k])@ == arguments_for(self@.args, ip@)[k],
            decreases self.args.len() - i,
        {
            match &self.args[i] {
                Token::String(text) => {
                    list.push(text.clone());
                },
                Token::IP => {
                    list.push(String::from_str(ip));
                },
            }
            i += 1;
        }
        assert(texts(list@) =~= arguments_for(self@.args, ip@));
        list
    }
}

/// Which address the tracker hands out for its peer.
#[allow(non_camel_case_types)]
#[derive(Debug, PartialEq, Clone)]
pub enum PeerHost {
    /// A fixed address.
    IP(Ip),
    /// The configured host name.
    HOST,
    /// The address that the client reached the tracker at.
    INFER,
}

/// The mathematical model of a [`PeerHost`].
pub enum PeerHostModel {
    Fixed(IpModel),
    Host,
    Infer,
}

impl View for PeerHost {
    type V = PeerHostModel;

    open spec fn view(&self) -> PeerHostModel {
        match self {
            PeerHost::IP(ip) => PeerHostModel::Fixed(ip@),
            PeerHost::HOST => PeerHostModel::Host,
            PeerHost::INFER => PeerHostModel::Infer,
        }
    }
}

impl PeerHost {
    /// A copy of the choice.
    pub fn copy(&self) -> (copy: PeerHost)
        ensures
            copy@ == self@,
    {
        match self {
            PeerHost::IP(ip) => PeerHost::IP(ip.copy()),
            PeerHost::HOST => PeerHost::HOST,
            PeerHost::INFER => PeerHost::INFER,
        }
    }

    /// The address to hand out, given the configured host name and the
    /// address that the client reached the tracker at.
    pub fn resolve(&self, host: &[u8], local: &Ip) -> (address: Ip)
        ensures
            address@ == match self {
                PeerHost::IP(ip) => ip@,
                PeerHost::HOST => IpModel::Text(host@),
                PeerHost::INFER => local@,
            },
    {
        match self {
            PeerHost::IP(ip) => ip.copy(),
            PeerHost::HOST => Ip::Text(slice_to_vec(host)),
            PeerHost::INFER => local.copy(),
        }
    }
}

/// The number that a hexadecimal digit of either case stands for.
pub open spec fn hex_char_value(c: char) -> Option<int> {
    if '0' <= c <= '9' {
        Some(c as int - '0' as int)
    } else if 'a' <= c <= 'f' {
        Some(c as int - 'a' as int + 10)
    } else if 'A' <= c <= 'F' {
        Some(c as int - 'A' as int + 10)
    } else {
        None
    }
}

/// The bytes that pairs of hexadecimal digits stand for. A character that
/// is left over at the end is not looked at.
pub open spec fn hex_pairs(text: Seq<char>) -> Option<Seq<u8>>
    decreases text.len(),
{
    if text.len() < 2 {
        Some(Seq::empty())
    } else {
        match (hex_char_value(text[0]), hex_char_value(text[1]), hex_pairs(text.skip(2))) {
            (Some(high), Some(low), Some(rest)) => Some(seq![(high * 16 + low) as u8] + rest),
            _ => None,
        }
    }
}

/// The info hash that a hexadecimal text stands for.
pub open spec fn info_hash_of(text: Seq<char>) -> Result<Seq<u8>, &'static str> {
    match hex_pairs(text) {
        None => Err("Invalid info hash."),
        Some(bytes) => if bytes.len() == 20 {
            Ok(bytes)
        } else {
            Err("Invalid length of info hash.")
        },
    }
}

/// The number that the hexadecimal digit `c` stands for.
pub fn hex_value_of(c: char) -> (value: Option<u8>)
    ensures
        match hex_char_value(c) {
            Some(n) => value == Some(n as u8),
            None => value is None,
        },
{
    if '0' <= c && c <= '9' {
        Some((c as u32 - '0' as u32) as u8)
    } else if 'a' <= c && c <= 'f' {
        Some((c as u32 - 'a' as u32 + 10) as u8)
    } else if 'A' <= c && c <= 'F' {
        Some((c as u32 - 'A' as u32 + 10) as u8)
    } else {
        None
    }
}

/// The bytes that the pairs of hexadecimal digits of `text` stand for;
/// nothing where a pair holds another character.
pub fn parse_hex_pairs(text: &str) -> (r: Option<Vec<u8>>)
    ensures
        match hex_pairs(text@) {
            Some(bytes) => r matches Some(found) && found@ == bytes,
            None => r is None,
        },
{
    let count = text.unicode_len();
    let mut bytes: Vec<u8> = Vec::new();
    let mut i: usize = 0;
    assert(text@.skip(0) =~= text@);
    while count - i >= 2
        invariant
            i <= count,
            count == text@.len(),
            hex_pairs(text@) == match hex_pairs(text@.skip(i as int)) {
                Some(rest) => Some(bytes@ + rest),
                None => None,
            },
        decreases count - i,
    {
        let ghost tail = text@.skip(i as int);
        let ghost done = bytes@;
        assert(tail[0] == text@[i as int] && tail[1] == text@[i + 1]);
        assert(tail.skip(2) =~= text@.skip(i + 2));
        match (hex_value_of(text.get_char(i)), hex_value_of(text.get_char(i + 1))) {
            (Some(high), Some(low)) => {
                bytes.push(high * 16 + low);
                proof {
                    let rest = hex_pairs(tail.skip(2));
                    if rest is Some {
                        assert(done + (seq![(high * 16 + low) as u8] + rest.unwrap()) =~= bytes@
                            + rest.unwrap());
                    }
                }
            },
            _ => {
                return None;
            },
        }
        i += 2;
    }
    assert(bytes@ + Seq::<u8>::empty() =~= bytes@);
    Some(bytes)
}

/// The info hash that the hexadecimal text `text` stands for: 40 digits, or
/// 41 characters of which the first 40 are digits.
pub fn parse_info_hash(text: &str) -> (r: Result<[u8; 20], &'static str>)
    ensures
        match info_hash_of(text@) {
            Ok(bytes) => r matches Ok(hash) && hash@ == bytes,
            Err(e) => r matches Err(found) && found == e,
        },
{
    match parse_hex_pairs(text) {
        None => Err("Invalid info hash."),
        Some(bytes) => match to_array_20(bytes.as_slice()) {
            Some(hash) => Ok(hash),
            None => Err("Invalid length of info hash."),
        },
    }
}

/// One argument of the command line, with what the world around the
/// program says of it.
#[derive(Debug, PartialEq, Clone)]
pub struct Argument {
    /// The argument as it was given.
    pub text: String,
    /// Whether the argument is the path of a file.
    pub is_file: bool,
    /// The address that the argument is the text form of, if it is one.
    pub address: Option<Ip>,
}

/// The mathematical model of an [`Argument`].
pub struct ArgumentModel {
    pub text: Seq<char>,
    pub is_file: bool,
    pub address: Option<IpModel>,
}

/// The model of an optional address.
pub open spec fn address_view(address: Option<Ip>) -> Option<IpModel> {
    match address {
        Some(ip) => Some(ip@),
        None => None,
    }
}

impl View for Argument {
    type V = ArgumentModel;

    open spec fn view(&self) -> ArgumentModel {
        ArgumentModel {
            text: self.text@,
            is_file: self.is_file,
            address: address_view(self.address),
        }
    }
}

/// The models of a vector of arguments.
pub open spec fn arguments_view(args: Seq<Argument>) -> Seq<ArgumentModel> {
    Seq::new(args.len(), |i: int| args[i]@)
}

/// The configuration of the tracker.
#[derive(Debug, PartialEq, Clone)]
pub struct Config {
    /// The action to run for an address that was not expected.
    pub notify: Action,
    /// The host name of the tracker.
    pub host: String,
    /// The port for announce requests.
    pub server_port: u16,
    /// The port for peer handshakes.
    pub peer_port: u16,
    /// The info hash of the torrent that is served.
    pub info_hash: [u8; 20],
    /// The path of the file to make a torrent of.
    pub file: Option<String>,
    /// The address that is expected and not notified of.
    pub expected_ip: Ip,
    /// Which address to hand out for the peer of the tracker.
    pub peer_host: PeerHost,
}

/// The mathematical model of a [`Config`].
pub struct ConfigModel {
    pub notify: ActionModel,
    pub host: Seq<char>,
    pub server_port: u16,
    pub peer_port: u16,
    pub info_hash: Seq<u8>,
    pub file: Option<Seq<char>>,
    pub expected_ip: IpModel,
    pub peer_host: PeerHostModel,
}

/// The text of an optional string.
pub open spec fn text_view(text: Option<String>) -> Option<Seq<char>> {
    match text {
        Some(t) => Some(t@),
        None => None,
    }
}

impl View for Config {
    type V = ConfigModel;

    open spec fn view(&self) -> ConfigModel {
        ConfigModel {
            notify: self.notify@,
            host: self.host@,
            server_port: self.server_port,
            peer_port: self.peer_port,
            info_hash: self.info_hash@,
            file: text_view(self.file),
            expected_ip: self.expected_ip@,
            peer_host: self.peer_host@,
        }
    }
}

/// What has been read of a configuration so far. The three settings that
/// must be given hold the reason why they are missing until they are given.
pub struct DraftModel {
    pub notify: Result<ActionModel, &'static str>,
    pub info_hash: Result<Seq<u8>, &'static str>,
    pub expected_ip: Result<IpModel, &'static str>,
    pub host: Seq<char>,
    pub server_port: u16,
    pub peer_port: u16,
    pub file: Option<Seq<char>>,
    pub peer_host: PeerHostModel,
}

/// The draft before any argument is read: nothing of what must be given,
/// and the defaults for the rest.
pub open spec fn first_draft() -> DraftModel {
    DraftModel {
        notify: Err("Missing command."),
        info_hash: Err("Missing info hash."),
        expected_ip: Err("Missing expected ip."),
        host: "127.0.0.1"@,
        server_port: 3000,
        peer_port: 16384,
        file: None,
        peer_host: PeerHostModel::Infer,
    }
}

/// The configuration that a finished draft makes, or the reason why the
/// first of the action, the info hash and the expected address is missing.
pub open spec fn finished(draft: DraftModel) -> Result<ConfigModel, &'static str> {
    match (draft.notify, draft.info_hash, draft.expected_ip) {
        (Err(e), _, _) => Err(e),
        (Ok(_), Err(e), _) => Err(e),
        (Ok(_), Ok(_), Err(e)) => Err(e),
        (Ok(notify), Ok(info_hash), Ok(expected_ip)) => Ok(
            ConfigModel {
                notify,
                host: draft.host,
                server_port: draft.server_port,
                peer_port: draft.peer_port,
                info_hash,
                file: draft.file,
                expected_ip,
                peer_host: draft.peer_host,
            },
        ),
    }
}

/// The port that a text stands for: a decimal number up to 65535.
pub open spec fn port_of(text: Seq<char>) -> Option<u16> {
    match decimal_value(encode_utf8(text), 65535) {
        Some(n) => Some(n as u16),
        None => None,
    }
}

/// The draft after the option `option` with the value `value`, or the
/// reason why reading ends there.
///
/// Every option wants the argument behind it as its value. `-n` or
/// `--notify` gives the action, `-i` or `--info` the info hash in
/// hexadecimal, `-h` or `--host` the host name, `-s` or `--server-port` and
/// `-p` or `--peer-port` the ports, `-f` or `--file` the file to make a
/// torrent of, `-e` or `--expected-ip` the expected address, and
/// `--peer-host` the address to hand out: `infer`, `host` or an address.
///
/// A fault in an action, a wrong length of the info hash and a text that is
/// no expected address go into the draft, where a later option can mend
/// them. Every other fault ends the reading.
pub open spec fn applied(
    draft: DraftModel,
    option: Seq<char>,
    value: Option<ArgumentModel>,
) -> Result<DraftModel, &'static str> {
    if option == "-n"@ || option == "--notify"@ {
        match value {
            None => Err("Missing value for \"notify\""),
            Some(v) => Ok(DraftModel { notify: action_of(words(v.text)), ..draft }),
        }
    } else if option == "-i"@ || option == "--info"@ {
        match value {
            None => Err("Missing expected argument."),
            Some(v) => match hex_pairs(v.text) {
                None => Err("Invalid info hash."),
                Some(_) => Ok(DraftModel { info_hash: info_hash_of(v.text), ..draft }),
            },
        }
    } else if option == "-h"@ || option == "--host"@ {
        match value {
            None => Err("Missing expected argument."),
            Some(v) => Ok(DraftModel { host: v.text, ..draft }),
        }
    } else if option == "-s"@ || option == "--server-port"@ {
        match value {
            None => Err("Missing expected argument."),
            Some(v) => match port_of(v.text) {
                Some(port) => Ok(DraftModel { server_port: port, ..draft }),
                None => Err("Invalid server port (must be a number 0 < port < 65536)"),
            },
        }
    } else if option == "-p"@ || option == "--peer-port"@ {
        match value {
            None => Err("Missing expected argument."),
            Some(v) => match port_of(v.text) {
                Some(port) => Ok(DraftModel { peer_port: port, ..draft }),
                None => Err("Invalid peer port (must be a number 0 < port < 65536)"),
            },
        }
    } else if option == "-f"@ || option == "--file"@ {
        match value {
            None => Err("Missing value for \"file\""),
            Some(v) => if v.is_file {
                Ok(
                    DraftModel {
                        file: Some(v.text),
                        info_hash: Ok(Seq::new(20, |i: int| 0u8)),
                        ..draft
                    },
                )
            } else {
                Err("Argument is not a file.")
            },
        }
    } else if option == "-e"@ || option == "--expected-ip"@ {
        match value {
            None => Err("Missing expected argument."),
            Some(v) => Ok(
                DraftModel {
                    expected_ip: match v.address {
                        Some(ip) => Ok(ip),
                        None => Err("Invalid IP address."),
                    },
                    ..draft
                },
            ),
        }
    } else if option == "--peer-host"@ {
        match value {
            None => Err("Invalid peer host."),
            Some(v) => if v.text == "infer"@ {
                Ok(DraftModel { peer_host: PeerHostModel::Infer, ..draft })
            } else if v.text == "host"@ {
                Ok(DraftModel { peer_host: PeerHostModel::Host, ..draft })
            } else {
                match v.address {
                    Some(ip) => Ok(DraftModel { peer_host: PeerHostModel::Fixed(ip), ..draft }),
                    None => Err("Invalid IP address"),
                }
            },
        }
    } else {
        Err("Unexpected token.")
    }
}

/// The configuration that the arguments `args` make of the draft `draft`:
/// the arguments are read in pairs of an option and its value, up to the
/// first fault that ends the reading, and the draft is finished.
pub open spec fn loaded(args: Seq<ArgumentModel>, draft: DraftModel) -> Result<
    ConfigModel,
    &'static str,
>
    decreases args.len(),
{
    if args.len() == 0 {
        finished(draft)
    } else if args.len() == 1 {
        match applied(draft, args[0].text, None) {
            Ok(next) => finished(next),
            Err(e) => Err(e),
        }
    } else {
        match applied(draft, args[0].text, Some(args[1])) {
            Ok(next) => loaded(args.skip(2), next),
            Err(e) => Err(e),
        }
    }
}

/// What has been read of a configuration so far.
struct Draft {
    notify: Result<Action, &'static str>,
    info_hash: Result<[u8; 20], &'static str>,
    expected_ip: Result<Ip, &'static str>,
    host: String,
    server_port: u16,
    peer_port: u16,
    file: Option<String>,
    peer_host: PeerHost,
}

impl View for Draft {
    type V = DraftModel;

    closed spec fn view(&self) -> DraftModel {
        DraftModel {
            notify: match self.notify {
                Ok(action) => Ok(action@),
                Err(e) => Err(e),
            },
            info_hash: match self.info_hash {
                Ok(hash) => Ok(hash@),
                Err(e) => Err(e),
            },
            expected_ip: match self.expected_ip {
                Ok(ip) => Ok(ip@),
                Err(e) => Err(e),
            },
            host: self.host@,
            server_port: self.server_port,
            peer_port: self.peer_port,
            file: text_view(self.file),
            peer_host: self.peer_host@,
        }
    }
}

/// Whether `text` is the text `literal`.
fn same_text(text: &String, literal: &str) -> (same: bool)
    ensures
        same == (text@ == literal@),
{
    *text == String::from_str(literal)
}

/// The port that `text` stands for.
fn parse_port(text: &String) -> (port: Option<u16>)
    ensures
        port == port_of(text@),
{
    match parse_number(text.as_str().as_bytes(), 65535) {
        Some(n) => Some(n as u16),
        None => None,
    }
}

impl Draft {
    /// The draft before any argument is read.
    fn new() -> (draft: Draft)
        ensures
            draft@ == first_draft(),
    {
        Draft {
            notify: Err("Missing command."),
            info_hash: Err("Missing info hash."),
            expected_ip: Err("Missing expected ip."),
            host: String::from_str("127.0.0.1"),
            server_port: 3000,
            peer_port: 16384,
            file: None,
            peer_host: PeerHost::INFER,
        }
    }

    /// The draft after the option `option` with the value `value`.
    fn apply(self, option: &String, value: Option<&Argument>) -> (r: Result<Draft, &'static str>)
        ensures
            match applied(
                self@,
                option@,
                match value {
                    Some(v) => Some(v@),
                    None => None,
                },
            ) {
                Ok(next) => r matches Ok(found) && found@ == next,
                Err(e) => r matches Err(found) && found == e,
            },
    {
        let mut draft = self;
        if same_text(option, "-n") || same_text(option, "--notify") {
            match value {
                None => Err("Missing value for \"notify\""),
                Some(v) => {
                    draft.notify = Action::try_from(v.text.clone());
                    Ok(draft)
                },
            }
        } else if same_text(option, "-i") || same_text(option, "--info") {
            match value {
                None => Err("Missing expected argument."),
                Some(v) => match parse_hex_pairs(v.text.as_str()) {
                    None => Err("Invalid info hash."),
                    Some(bytes) => {
                        draft.info_hash = match to_array_20(bytes.as_slice()) {
                            Some(hash) => Ok(hash),
                            None => Err("Invalid length of info hash."),
                        };
                        Ok(draft)
                    },
                },
            }
        } else if same_text(option, "-h") || same_text(option, "--host") {
            match value {
                None => Err("Missing expected argument."),
                Some(v) => {
                    draft.host = v.text.clone();
                    Ok(draft)
                },
            }
        } else if same_text(option, "-s") || same_text(option, "--server-port") {
            match value {
                None => Err("Missing expected argument."),
                Some(v) => match parse_port(&v.text) {
                    Some(port) => {
                        draft.server_port = port;
                        Ok(draft)
                    },
                    None => Err("Invalid server port (must be a number 0 < port < 65536)"),
                },
            }
        } else if same_text(option, "-p") || same_text(option, "--peer-port") {
            match value {
                None => Err("Missing expected argument."),
                Some(v) => match parse_port(&v.text) {
                    Some(port) => {
                        draft.peer_port = port;
                        Ok(draft)
                    },
                    None => Err("Invalid peer port (must be a number 0 < port < 65536)"),
                },
            }
        } else if same_text(option, "-f") || same_text(option, "--file") {
            match value {
                None => Err("Missing value for \"file\""),
                Some(v) => {
                    if v.is_file {
                        draft.file = Some(v.text.clone());
                        let zeros = [0u8;20];
                        assert(zeros@ =~= Seq::new(20, |i: int| 0u8));
                        draft.info_hash = Ok(zeros);
                        Ok(draft)
                    } else {
                        Err("Argument is not a file.")
                    }
                },
            }
        } else if same_text(option, "-e") || same_text(option, "--expected-ip") {
            match value {
                None => Err("Missing expected argument."),
                Some(v) => {
                    draft.expected_ip = match &v.address {
                        Some(ip) => Ok(ip.copy()),
                        None => Err("Invalid IP address."),
                    };
                    Ok(draft)
                },
            }
        } else if same_text(option, "--peer-host") {
            match value {
                None => Err("Invalid peer host."),
                Some(v) => {
                    if same_text(&v.text, "infer") {
                        draft.peer_host = PeerHost::INFER;
                        Ok(draft)
                    } else if same_text(&v.text, "host") {
                        draft.peer_host = PeerHost::HOST;
                        Ok(draft)
                    } else {
                        match &v.address {
                            Some(ip) => {
                                draft.peer_host = PeerHost::IP(ip.copy());
                                Ok(draft)
                            },
                            None => Err("Invalid IP address"),
                        }
                    }
                },
            }
        } else {
            Err("Unexpected token.")
        }
    }

    /// The configuration that the draft makes.
    fn finish(self) -> (r: Result<Config, &'static str>)
        ensures
            match finished(self@) {
                Ok(config) => r matches Ok(found) && found@ == config,
                Err(e) => r matches Err(found) && found == e,
            },
    {
        let notify = match self.notify {
            Ok(action) => action,
            Err(e) => {
                return Err(e);
            },
        };
        let info_hash = match self.info_hash {
            Ok(hash) => hash,
            Err(e) => {
                return Err(e);
            },
        };
        let expected_ip = match self.expected_ip {
            Ok(ip) => ip,
            Err(e) => {
                return Err(e);
            },
        };
        Ok(
            Config {
                notify,
                host: self.host,
                server_port: self.server_port,
                peer_port: self.peer_port,
                info_hash,
                file: self.file,
                expected_ip,
                peer_host: self.peer_host,
            },
        )
    }
}

impl Config {
    /// Whether the notify action is to be run for a peer that was seen at
    /// the address `seen`: it is, unless that is the expected address.
    pub fn notifies(&self, seen: &Ip) -> (unexpected: bool)
        ensures
            unexpected == (seen@ != self.expected_ip@),
    {
        *seen != self.expected_ip
    }

    /// The configuration that the arguments of the command line make.
    pub fn load(args: Vec<Argument>) -> (r: Result<Config, &'static str>)
        ensures
            match loaded(arguments_view(args@), first_draft()) {
                Ok(config) => r matches Ok(found) && found@ == config,
                Err(e) => r matches Err(found) && found == e,
            },
    {
        let ghost all = arguments_view(args@);
        let mut draft = Draft::new();
        let mut i: usize = 0;
        assert(all.skip(0) =~= all);
        while i < args.len()
            invariant
                i <= args.len(),
                all == arguments_view(args@),
                loaded(all, first_draft()) == loaded(all.skip(i as int), draft@),
            decreases args.len() - i,
        {
            let ghost rest = all.skip(i as int);
            assert(rest[0] == args@[i as int]@);
            if args.len() - i >= 2 {
                assert(rest[1] == args@[i + 1]@);
                assert(rest.skip(2) =~= all.skip(i + 2));
                match draft.apply(&args[i].text, Some(&args[i + 1])) {
                    Ok(next) => {
                        draft = next;
                    },
                    Err(e) => {
                        return Err(e);
                    },
                }
                i += 2;
            } else {
                return match draft.apply(&args[i].text, None) {
                    Ok(next) => next.finish(),
                    Err(e) => Err(e),
                };
            }
        }
        assert(all.skip(i as int) =~= Seq::empty());
        draft.finish()
    }
}

} // verus!
