//! The proxy's configuration, read from the words of a command line.

use crate::text::{
    chars_eq, chars_of, lower, matches_at, occurs_at, parse_unsigned, piece, read_unsigned,
    to_lower,
};
use vstd::prelude::*;

verus! {

/// The protocols that the proxy speaks.
#[derive(Debug, Clone, Copy, PartialEq, Eq, Structural)]
pub enum Protocol {
    HTTP,
}

/// The model of a configuration.
pub struct ArgsView {
    pub port: u16,
    pub protocol: Protocol,
    pub help: bool,
    pub version: bool,
    pub user: Option<Seq<char>>,
}

/// The configuration: the port to listen on, the protocol, whether help or
/// the version was asked for, and the credential `username:password` that
/// clients must present, if any.
#[derive(Debug)]
pub struct Args {
    pub port: u16,
    pub protocol: Protocol,
    pub help: bool,
    pub version: bool,
    pub user: Option<String>,
}

impl View for Args {
    type V = ArgsView;

    open spec fn view(&self) -> ArgsView {
        ArgsView {
            port: self.port,
            protocol: self.protocol,
            help: self.help,
            version: self.version,
            user: match self.user {
                Some(user) => Some(user@),
                None => None,
            },
        }
    }
}

/// The port that the proxy listens on when none is given.
pub const DEFAULT_PORT: u16 = 8080;

/// The configuration of a command line without options.
pub open spec fn default_args() -> ArgsView {
    ArgsView {
        port: DEFAULT_PORT,
        protocol: Protocol::HTTP,
        help: false,
        version: false,
        user: None,
    }
}

/// The options that take a value.
#[derive(Debug, Clone, Copy, PartialEq, Eq, Structural)]
pub enum Setting {
    Port,
    Protocol,
    User,
}

impl Setting {
    /// The short spelling of the option.
    pub open spec fn short(self) -> Seq<char> {
        match self {
            Setting::Port => "-p"@,
            Setting::Protocol => "-P"@,
            Setting::User => "-u"@,
        }
    }

    /// The long spelling of the option.
    pub open spec fn long(self) -> Seq<char> {
        match self {
            Setting::Port => "--port"@,
            Setting::Protocol => "--protocol"@,
            Setting::User => "--user"@,
        }
    }
}

/// How a word names the option `setting`.
pub enum Named {
    /// The word is not this option.
    No,
    /// The word is the option alone: its value is the next word.
    Alone,
    /// The word is the option, `=` and this value.
    With(Seq<char>),
}

/// The value behind `flag` and `=` in `word`, if `word` starts with these.
pub open spec fn value_after(word: Seq<char>, flag: Seq<char>) -> Option<Seq<char>> {
    if matches_at(word, flag + seq!['='], 0) {
        Some(word.subrange(flag.len() as int + 1, word.len() as int))
    } else {
        None
    }
}

/// How `word` names the option `setting`: by the short or the long
/// spelling alone, or by either of them with `=` and a value.
pub open spec fn names(word: Seq<char>, setting: Setting) -> Named {
    if word == setting.short() || word == setting.long() {
        Named::Alone
    } else {
        match value_after(word, setting.short()) {
            Some(value) => Named::With(value),
            None => match value_after(word, setting.long()) {
                Some(value) => Named::With(value),
                None => Named::No,
            },
        }
    }
}

/// What is said of a word that is no option.
pub open spec fn invalid_argument(word: Seq<char>) -> Seq<char> {
    "🚨 Invalid argument: "@ + word + " 🚨"@
}

/// What is said of a protocol that the proxy does not speak.
pub open spec fn unknown_protocol(value: Seq<char>) -> Seq<char> {
    "🚨 Unknown protocol: "@ + value + " 🚨"@
}

/// What is said when the value of `setting` is missing.
pub open spec fn missing_value(setting: Setting) -> Seq<char> {
    match setting {
        Setting::Port => "🚨 Error: no port provided 🚨"@,
        Setting::Protocol => "🚨 Error: no protocol provided 🚨"@,
        Setting::User => "🚨 Error: no user provided 🚨"@,
    }
}

/// The configuration after `setting` has taken `value`: a port must be a
/// decimal number that fits sixteen bits, a protocol must be `http` in any
/// letter case, and a credential is taken as it is.
pub open spec fn apply(args: ArgsView, setting: Setting, value: Seq<char>) -> Result<
    ArgsView,
    Seq<char>,
> {
    match setting {
        Setting::Port => match parse_unsigned(value) {
            Some(n) => if n <= u16::MAX {
                Ok(ArgsView { port: n as u16, ..args })
            } else {
                Err("Error parsing port"@)
            },
            None => Err("Error parsing port"@),
        },
        Setting::Protocol => if lower(value) == "http"@ {
            Ok(ArgsView { protocol: Protocol::HTTP, ..args })
        } else {
            Err(unknown_protocol(value))
        },
        Setting::User => Ok(ArgsView { user: Some(value), ..args }),
    }
}

/// The option with a value that `word` names, and how.
pub open spec fn setting_of(word: Seq<char>) -> Option<(Setting, Named)> {
    if !(names(word, Setting::Port) is No) {
        Some((Setting::Port, names(word, Setting::Port)))
    } else if !(names(word, Setting::Protocol) is No) {
        Some((Setting::Protocol, names(word, Setting::Protocol)))
    } else if !(names(word, Setting::User) is No) {
        Some((Setting::User, names(word, Setting::User)))
    } else {
        None
    }
}

/// The configuration that the words of `words` from index `i` on make of
/// `args`, read left to right; the first word that cannot be taken ends the
/// reading with what is said of it.
pub open spec fn parse_from(words: Seq<Seq<char>>, i: int, args: ArgsView) -> Result<
    ArgsView,
    Seq<char>,
>
    decreases words.len() - i,
{
    if i < 0 || i >= words.len() {
        Ok(args)
    } else {
        let word = words[i];
        if word == "-h"@ || word == "--help"@ {
            parse_from(words, i + 1, ArgsView { help: true, ..args })
        } else if word == "-v"@ || word == "--version"@ {
            parse_from(words, i + 1, ArgsView { version: true, ..args })
        } else {
            match setting_of(word) {
                Some((setting, Named::With(value))) => match apply(args, setting, value) {
                    Ok(next) => parse_from(words, i + 1, next),
                    Err(said) => Err(said),
                },
                Some((setting, _)) => if i + 1 < words.len() {
                    match apply(args, setting, words[i + 1]) {
                        Ok(next) => parse_from(words, i + 2, next),
                        Err(said) => Err(said),
                    }
                } else {
                    Err(missing_value(setting))
                },
                None => Err(invalid_argument(word)),
            }
        }
    }
}

/// The configuration that a command line spells. Its first word is the
/// program's name and is passed over.
pub open spec fn parse_words(words: Seq<Seq<char>>) -> Result<ArgsView, Seq<char>> {
    parse_from(words, 1, default_args())
}

/// The texts of a list of strings.
pub open spec fn texts(words: Seq<String>) -> Seq<Seq<char>> {
    Seq::new(words.len(), |i: int| words[i]@)
}

/// How `word` names the option `setting`; a value is given by the index at
/// which it starts in `word`.
fn named(word: &[char], setting: Setting) -> (r: Option<Option<usize>>)
    ensures
        match r {
            None => names(word@, setting) is No,
            Some(None) => names(word@, setting) is Alone,
            Some(Some(start)) => start <= word@.len() && names(word@, setting) == Named::With(
                word@.subrange(start as int, word@.len() as int),
            ),
        },
{
    let short = chars_of(
        match setting {
            Setting::Port => "-p",
            Setting::Protocol => "-P",
            Setting::User => "-u",
        },
    );
    let long = chars_of(
        match setting {
            Setting::Port => "--port",
            Setting::Protocol => "--protocol",
            Setting::User => "--user",
        },
    );
    if chars_eq(word, short.as_slice()) || chars_eq(word, long.as_slice()) {
        return Some(None);
    }
    let mut short_with = short;
    short_with.push('=');
    let mut long_with = long;
    long_with.push('=');
    assert(short_with@ =~= setting.short() + seq!['=']);
    assert(long_with@ =~= setting.long() + seq!['=']);
    if occurs_at(word, short_with.as_slice(), 0) {
        Some(Some(short_with.len()))
    } else if occurs_at(word, long_with.as_slice(), 0) {
        Some(Some(long_with.len()))
    } else {
        None
    }
}

/// The option with a value that `word` names, and how.
fn setting_in(word: &[char]) -> (r: Option<(Setting, Option<usize>)>)
    ensures
        match r {
            None => setting_of(word@).is_none(),
            Some((setting, None)) => setting_of(word@) == Some((setting, Named::Alone)),
            Some((setting, Some(start))) => start <= word@.len() && setting_of(word@) == Some(
                (setting, Named::With(word@.subrange(start as int, word@.len() as int))),
            ),
        },
{
    match named(word, Setting::Port) {
        Some(how) => {
            return Some((Setting::Port, how));
        },
        None => {},
    }
    match named(word, Setting::Protocol) {
        Some(how) => {
            return Some((Setting::Protocol, how));
        },
        None => {},
    }
    match named(word, Setting::User) {
        Some(how) => Some((Setting::User, how)),
        None => None,
    }
}

/// `before`, `word` and `after`, one after the other.
fn framed(before: &str, word: &str, after: &str) -> (r: String)
    ensures
        r@ == before@ + word@ + after@,
{
    let mut r = String::from_str(before);
    r.append(word);
    r.append(after);
    r
}

impl Args {
    /// The configuration after `setting` has taken `value`.
    fn set(self, setting: Setting, value: &str) -> (r: Result<Args, String>)
        ensures
            match r {
                Ok(args) => apply(self@, setting, value@) == Ok::<_, Seq<char>>(args@),
                Err(said) => apply(self@, setting, value@) == Err::<ArgsView, _>(said@),
            },
    {
        let mut args = self;
        match setting {
            Setting::Port => {
                let chars = chars_of(value);
                match read_unsigned(chars.as_slice()) {
                    Some(n) => if n <= 65535 {
                        args.port = n as u16;
                        Ok(args)
                    } else {
                        Err(String::from_str("Error parsing port"))
                    },
                    None => Err(String::from_str("Error parsing port")),
                }
            },
            Setting::Protocol => {
                let chars = chars_of(value);
                let folded = to_lower(chars.as_slice());
                let http = chars_of("http");
                if chars_eq(folded.as_slice(), http.as_slice()) {
                    args.protocol = Protocol::HTTP;
                    Ok(args)
                } else {
                    Err(framed("🚨 Unknown protocol: ", value, " 🚨"))
                }
            },
            Setting::User => {
                args.user = Some(String::from_str(value));
                Ok(args)
            },
        }
    }

    /// Reads the words of a command line, the program's name first. `-h`
    /// and `--help` ask for help, `-v` and `--version` for the version;
    /// `-p` or `--port`, `-P` or `--protocol`, and `-u` or `--user` take a
    /// value, either as the next word or behind `=` in the same word. Any
    /// other word, a missing value, a port that is no sixteen-bit number
    /// and a protocol other than `http` end the reading with what is said
    /// of them.
    pub fn parse(arguments: &Vec<String>) -> (parsed: Result<Args, String>)
        ensures
            match parsed {
                Ok(args) => parse_words(texts(arguments@)) == Ok::<_, Seq<char>>(args@),
                Err(said) => parse_words(texts(arguments@)) == Err::<ArgsView, _>(said@),
            },
    {
        let ghost words = texts(arguments@);
        let mut args = Args {
            port: DEFAULT_PORT,
            protocol: Protocol::HTTP,
            help: false,
            version: false,
            user: None,
        };
        let count: usize = arguments.len();
        let mut i: usize = 1;
        while i < count
            invariant
                1 <= i,
                count == arguments@.len(),
                words == texts(arguments@),
                parse_words(words) == parse_from(words, i as int, args@),
            decreases count - i,
        {
            let word: &str = arguments[i].as_str();
            let chars = chars_of(word);
            let help_short = chars_of("-h");
            let help_long = chars_of("--help");
            let version_short = chars_of("-v");
            let version_long = chars_of("--version");
            if chars_eq(chars.as_slice(), help_short.as_slice()) || chars_eq(
                chars.as_slice(),
                help_long.as_slice(),
            ) {
                args.help = true;
                i = i + 1;
            } else if chars_eq(chars.as_slice(), version_short.as_slice()) || chars_eq(
                chars.as_slice(),
                version_long.as_slice(),
            ) {
                args.version = true;
                i = i + 1;
            } else {
                match setting_in(chars.as_slice()) {
                    Some((setting, Some(start))) => {
                        let value = piece(word, start, chars.len());
                        args = match args.set(setting, value.as_str()) {
                            Ok(next) => next,
                            Err(said) => {
                                return Err(said);
                            },
                        };
                        i = i + 1;
                    },
                    Some((setting, None)) => {
                        if i + 1 < count {
                            let value: &str = arguments[i + 1].as_str();
                            args = match args.set(setting, value) {
                                Ok(next) => next,
                                Err(said) => {
                                    return Err(said);
                                },
                            };
                            i = i + 2;
                        } else {
                            return Err(
                                String::from_str(
                                    match setting {
                                        Setting::Port => "🚨 Error: no port provided 🚨",
                                        Setting::Protocol => {
                                            "🚨 Error: no protocol provided 🚨"
                                        },
                                        Setting::User => "🚨 Error: no user provided 🚨",
                                    },
                                ),
                            );
                        }
                    },
                    None => {
                        return Err(framed("🚨 Invalid argument: ", word, " 🚨"));
                    },
                }
            }
        }
        Ok(args)
    }
}

} // verus!
