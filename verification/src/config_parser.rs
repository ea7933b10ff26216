//! Reading configuration text: which format a file is in, and the
//! line-oriented legacy format.
//!
//! The library reads no file and asks no resolver. Its caller hands it the
//! text of the file and, for the legacy format, says which address of which
//! rule could not be resolved.

use vstd::prelude::*;
use vstd::string::StringExecFns;
use crate::config::{
    access_rules_view, forwarding_rules_view, AccessRule, AccessRuleView, Config, ConfigView,
    ForwardingRule, ForwardingRuleView, LogFormat, Protocol, RuleType,
};
use crate::text::{
    chars_of, decimal_text, parse_unsigned, pieces_view, spec_decimal_text, spec_parse_unsigned,
    spec_split, spec_to_lowercase, spec_words, split, string_of, to_lowercase, words,
};

verus! {

/// Why a configuration could not be loaded.
#[derive(Debug)]
pub enum ConfigError {
    /// The file could not be read; the message of the failure.
    IoError(String),
    /// A line of a legacy file is not valid.
    ParseError(String),
    /// The file is not valid TOML for a configuration; the message of the
    /// decoder.
    TomlError(String),
}

/// An error as a mathematical value.
pub enum ConfigErrorView {
    IoError(Seq<char>),
    ParseError(Seq<char>),
    TomlError(Seq<char>),
}

impl View for ConfigError {
    type V = ConfigErrorView;

    open spec fn view(&self) -> ConfigErrorView {
        match self {
            ConfigError::IoError(m) => ConfigErrorView::IoError(m@),
            ConfigError::ParseError(m) => ConfigErrorView::ParseError(m@),
            ConfigError::TomlError(m) => ConfigErrorView::TomlError(m@),
        }
    }
}

impl ConfigError {
    /// The message of the error.
    pub fn message(&self) -> (r: &String)
        ensures
            self@ == ConfigErrorView::IoError(r@) || self@ == ConfigErrorView::ParseError(r@)
                || self@ == ConfigErrorView::TomlError(r@),
    {
        match self {
            ConfigError::IoError(m) => m,
            ConfigError::ParseError(m) => m,
            ConfigError::TomlError(m) => m,
        }
    }
}

/// The format of a configuration file.
#[derive(Debug, Clone, Copy, PartialEq, Eq, Structural)]
pub enum ConfigFormat {
    Toml,
    Legacy,
}

/// The format of the file at `path`: TOML where the path ends in `.toml`,
/// the legacy format everywhere else.
pub open spec fn spec_format_of(path: Seq<char>) -> ConfigFormat {
    if path.len() >= 5 && path.subrange(path.len() - 5, path.len() as int) == seq![
        '.',
        't',
        'o',
        'm',
        'l',
    ] {
        ConfigFormat::Toml
    } else {
        ConfigFormat::Legacy
    }
}

/// The format of the file at `path`.
pub fn format_of(path: &str) -> (r: ConfigFormat)
    ensures
        r == spec_format_of(path@),
{
    let p = chars_of(path);
    let n = p.len();
    if n >= 5 && p[n - 5] == '.' && p[n - 4] == 't' && p[n - 3] == 'o' && p[n - 2] == 'm' && p[n
        - 1] == 'l' {
        assert(path@.subrange(n - 5, n as int) =~= seq!['.', 't', 'o', 'm', 'l']);
        ConfigFormat::Toml
    } else {
        proof {
            if n >= 5 {
                let tail = path@.subrange(n - 5, n as int);
                assert(tail[0] == p@[n - 5]);
                assert(tail[1] == p@[n - 4]);
                assert(tail[2] == p@[n - 3]);
                assert(tail[3] == p@[n - 2]);
                assert(tail[4] == p@[n - 1]);
            }
        }
        ConfigFormat::Legacy
    }
}

/// What one line of a legacy file holds.
#[derive(Debug)]
pub enum LegacyLine {
    /// Nothing: the line is empty, a comment, or has a number of words that
    /// no kind of line has.
    Blank,
    /// A forwarding rule: bind address, bind port, connect address, connect
    /// port.
    Forwarding(ForwardingRule),
    /// An access rule for every forwarding rule: rule type, pattern.
    Access(AccessRule),
}

/// A line as a mathematical value.
pub enum LegacyLineView {
    Blank,
    Forwarding(ForwardingRuleView),
    Access(AccessRuleView),
}

impl View for LegacyLine {
    type V = LegacyLineView;

    open spec fn view(&self) -> LegacyLineView {
        match self {
            LegacyLine::Blank => LegacyLineView::Blank,
            LegacyLine::Forwarding(rule) => LegacyLineView::Forwarding(rule@),
            LegacyLine::Access(rule) => LegacyLineView::Access(rule@),
        }
    }
}

/// The forwarding rule of a legacy line: TCP, with no timeout, no source
/// address and no access rules of its own.
pub open spec fn spec_legacy_rule(
    bind_address: Seq<char>,
    bind_port: u16,
    connect_address: Seq<char>,
    connect_port: u16,
) -> ForwardingRuleView {
    ForwardingRuleView {
        bind_address,
        bind_port,
        connect_address,
        connect_port,
        protocol: Protocol::Tcp,
        timeout: None,
        source_address: None,
        rules: Seq::empty(),
    }
}

/// What the words of one line of a legacy file hold, or why the line is
/// not valid. `lowered_first` is the first word in lower case; it is read
/// only where the line has two words.
///
/// A line without words and a line whose first word starts with `#` hold
/// nothing. A line of four words is a forwarding rule; its second and
/// fourth word are port numbers up to 65535. A line of two words is an
/// access rule; its first word is `allow` or `deny` in any mix of upper and
/// lower case. A line with another number of words holds nothing.
pub open spec fn spec_legacy_words(parts: Seq<Seq<char>>, lowered_first: Seq<char>) -> Result<
    LegacyLineView,
    ConfigErrorView,
> {
    if parts.len() == 0 || (parts[0].len() > 0 && parts[0][0] == '#') {
        Ok(LegacyLineView::Blank)
    } else if parts.len() == 4 {
        match spec_parse_unsigned(parts[1], 65535) {
            None => Err(ConfigErrorView::ParseError("Invalid bind port: "@ + parts[1])),
            Some(bind_port) => match spec_parse_unsigned(parts[3], 65535) {
                None => Err(ConfigErrorView::ParseError("Invalid connect port: "@ + parts[3])),
                Some(connect_port) => Ok(
                    LegacyLineView::Forwarding(
                        spec_legacy_rule(parts[0], bind_port as u16, parts[2], connect_port as u16),
                    ),
                ),
            },
        }
    } else if parts.len() == 2 {
        match RuleType::spec_from_word(lowered_first) {
            Some(rule_type) => Ok(
                LegacyLineView::Access(AccessRuleView { rule_type, pattern: parts[1] }),
            ),
            None => Err(ConfigErrorView::ParseError("Unknown rule type: "@ + parts[0])),
        }
    } else {
        Ok(LegacyLineView::Blank)
    }
}

/// The first word of a line in lower case, where the line has two words;
/// the empty text everywhere else.
pub open spec fn spec_lowered_first(parts: Seq<Seq<char>>) -> Seq<char> {
    if parts.len() == 2 {
        spec_to_lowercase(parts[0])
    } else {
        Seq::empty()
    }
}

/// What one line of a legacy file holds, or why it is not valid: what its
/// words hold, the words being what stands between whitespace.
pub open spec fn spec_legacy_line(line: Seq<char>) -> Result<LegacyLineView, ConfigErrorView> {
    spec_legacy_words(spec_words(line), spec_lowered_first(spec_words(line)))
}

/// A message made of a fixed start and a word of the line.
fn message(start: &str, word: &[char]) -> (r: String)
    ensures
        r@ == start@ + word@,
{
    let mut m = String::from_str(start);
    let w = string_of(word);
    m.append(w.as_str());
    m
}

/// Reads the words of one line of a legacy file. `lowered_first` is the
/// first word in lower case; it is read only where the line has two words.
pub fn parse_legacy_words(parts: &[Vec<char>], lowered_first: &[char]) -> (r: Result<
    LegacyLine,
    ConfigError,
>)
    ensures
        match r {
            Ok(l) => spec_legacy_words(pieces_view(parts@), lowered_first@) == Ok::<
                LegacyLineView,
                ConfigErrorView,
            >(l@),
            Err(e) => spec_legacy_words(pieces_view(parts@), lowered_first@) == Err::<
                LegacyLineView,
                ConfigErrorView,
            >(e@),
        },
{
    proof {
        assert(forall|i: int|
            0 <= i < parts.len() ==> (#[trigger] pieces_view(parts@)[i]) == parts@[i]@);
    }
    if parts.len() == 0 {
        return Ok(LegacyLine::Blank);
    }
    assert(pieces_view(parts@)[0] == parts@[0]@);
    if parts[0].len() > 0 && parts[0][0] == '#' {
        return Ok(LegacyLine::Blank);
    }
    if parts.len() == 4 {
        assert(pieces_view(parts@)[1] == parts@[1]@);
        assert(pieces_view(parts@)[2] == parts@[2]@);
        assert(pieces_view(parts@)[3] == parts@[3]@);
        let bind_port: u16 = match parse_unsigned(parts[1].as_slice(), 65535) {
            Some(p) => p as u16,
            None => {
                return Err(
                    ConfigError::ParseError(message("Invalid bind port: ", parts[1].as_slice())),
                );
            },
        };
        let connect_port: u16 = match parse_unsigned(parts[3].as_slice(), 65535) {
            Some(p) => p as u16,
            None => {
                return Err(
                    ConfigError::ParseError(message("Invalid connect port: ", parts[3].as_slice())),
                );
            },
        };
        let rules: Vec<AccessRule> = Vec::new();
        let rule = ForwardingRule {
            bind_address: string_of(parts[0].as_slice()),
            bind_port,
            connect_address: string_of(parts[2].as_slice()),
            connect_port,
            protocol: Protocol::Tcp,
            timeout: None,
            source_address: None,
            rules,
        };
        assert(rule@.rules =~= Seq::empty());
        Ok(LegacyLine::Forwarding(rule))
    } else if parts.len() == 2 {
        assert(pieces_view(parts@)[1] == parts@[1]@);
        let lowered = string_of(lowered_first);
        match RuleType::from_word(lowered.as_str()) {
            Some(rule_type) => Ok(
                LegacyLine::Access(
                    AccessRule { rule_type, pattern: string_of(parts[1].as_slice()) },
                ),
            ),
            None => Err(
                ConfigError::ParseError(message("Unknown rule type: ", parts[0].as_slice())),
            ),
        }
    } else {
        Ok(LegacyLine::Blank)
    }
}

/// Reads one line of a legacy file.
pub fn parse_legacy_line(line: &[char]) -> (r: Result<LegacyLine, ConfigError>)
    ensures
        match r {
            Ok(l) => spec_legacy_line(line@) == Ok::<LegacyLineView, ConfigErrorView>(l@),
            Err(e) => spec_legacy_line(line@) == Err::<LegacyLineView, ConfigErrorView>(e@),
        },
{
    let parts = words(line);
    let lowered_first: Vec<char> = if parts.len() == 2 {
        assert(pieces_view(parts@)[0] == parts@[0]@);
        to_lowercase(parts[0].as_slice())
    } else {
        Vec::new()
    };
    assert(lowered_first@ =~= spec_lowered_first(spec_words(line@)));
    parse_legacy_words(parts.as_slice(), lowered_first.as_slice())
}

/// What a legacy file holds as far as it could be read: the rules of the
/// lines before the first line that is not valid, and why that line is not.
#[derive(Debug)]
pub struct LegacyParse {
    /// The rules that were read, with no log file, no pid file and the
    /// `Rinetd` log format.
    pub config: Config,
    /// Why reading stopped, if it stopped before the end.
    pub error: Option<ConfigError>,
}

/// A reading of a legacy file as a mathematical value.
pub struct LegacyParseView {
    pub config: ConfigView,
    pub error: Option<ConfigErrorView>,
}

impl View for LegacyParse {
    type V = LegacyParseView;

    open spec fn view(&self) -> LegacyParseView {
        LegacyParseView {
            config: self.config@,
            error: match self.error {
                Some(e) => Some(e@),
                None => None,
            },
        }
    }
}

/// The configuration of a legacy file without lines.
pub open spec fn spec_legacy_start() -> ConfigView {
    ConfigView {
        global_rules: Seq::empty(),
        forwarding_rules: Seq::empty(),
        log_file: None,
        pid_file: None,
        log_format: LogFormat::Rinetd,
    }
}

/// What the given lines of a legacy file hold, read from first to last.
/// Each forwarding rule and each access rule is added in the order of the
/// lines; reading stops at the first line that is not valid.
pub open spec fn spec_legacy_parse(lines: Seq<Seq<char>>) -> LegacyParseView
    decreases lines.len(),
{
    if lines.len() == 0 {
        LegacyParseView { config: spec_legacy_start(), error: None }
    } else {
        let before = spec_legacy_parse(lines.drop_last());
        if before.error is Some {
            before
        } else {
            match spec_legacy_line(lines.last()) {
                Err(e) => LegacyParseView { config: before.config, error: Some(e) },
                Ok(LegacyLineView::Blank) => before,
                Ok(LegacyLineView::Forwarding(rule)) => LegacyParseView {
                    config: ConfigView {
                        forwarding_rules: before.config.forwarding_rules.push(rule),
                        ..before.config
                    },
                    error: None,
                },
                Ok(LegacyLineView::Access(rule)) => LegacyParseView {
                    config: ConfigView {
                        global_rules: before.config.global_rules.push(rule),
                        ..before.config
                    },
                    error: None,
                },
            }
        }
    }
}

/// Once reading has stopped, further lines change nothing.
pub proof fn lemma_legacy_parse_stops(lines: Seq<Seq<char>>, n: int)
    requires
        0 <= n <= lines.len(),
        spec_legacy_parse(lines.take(n)).error is Some,
    ensures
        spec_legacy_parse(lines) == spec_legacy_parse(lines.take(n)),
    decreases lines.len(),
{
    if n == lines.len() {
        assert(lines.take(n) =~= lines);
    } else {
        assert(lines.drop_last().take(n) =~= lines.take(n));
        lemma_legacy_parse_stops(lines.drop_last(), n);
    }
}

/// Which of the two addresses of a forwarding rule.
#[derive(Debug, Clone, Copy, PartialEq, Eq, Structural)]
pub enum AddressSide {
    Bind,
    Connect,
}

/// An address of a forwarding rule that could not be resolved.
#[derive(Debug, Clone, Copy, PartialEq, Eq, Structural)]
pub struct UnresolvedAddress {
    /// The place of the rule among the forwarding rules, from 0.
    pub rule: usize,
    pub side: AddressSide,
}

/// The error for an address of a rule that could not be resolved.
pub open spec fn spec_address_error(rule: ForwardingRuleView, side: AddressSide) -> ConfigErrorView {
    match side {
        AddressSide::Bind => ConfigErrorView::ParseError(
            "Invalid bind address: "@ + rule.bind_address + seq![':'] + spec_decimal_text(
                rule.bind_port as nat,
            ),
        ),
        AddressSide::Connect => ConfigErrorView::ParseError(
            "Invalid connect address: "@ + rule.connect_address + seq![':'] + spec_decimal_text(
                rule.connect_port as nat,
            ),
        ),
    }
}

/// The outcome of loading a legacy file.
///
/// `unresolved` is the first address that could not be resolved, taking the
/// forwarding rules in order and of each rule the bind address before the
/// connect address. With such an address the outcome is its error: its line
/// stands before the line at which reading stopped. Without one, the
/// outcome is the error at which reading stopped, or the configuration if
/// reading went to the end.
pub open spec fn spec_finish(parse: LegacyParseView, unresolved: Option<UnresolvedAddress>) -> Result<
    ConfigView,
    ConfigErrorView,
> {
    if unresolved is Some && unresolved->0.rule < parse.config.forwarding_rules.len() {
        Err(
            spec_address_error(
                parse.config.forwarding_rules[unresolved->0.rule as int],
                unresolved->0.side,
            ),
        )
    } else {
        match parse.error {
            Some(e) => Err(e),
            None => Ok(parse.config),
        }
    }
}

/// The error for an address of a rule that could not be resolved.
pub fn address_error(rule: &ForwardingRule, side: AddressSide) -> (r: ConfigError)
    ensures
        r@ == spec_address_error(rule@, side),
{
    let (mut m, address, port) = match side {
        AddressSide::Bind => (
            String::from_str("Invalid bind address: "),
            &rule.bind_address,
            rule.bind_port,
        ),
        AddressSide::Connect => (
            String::from_str("Invalid connect address: "),
            &rule.connect_address,
            rule.connect_port,
        ),
    };
    m.append(address.as_str());
    let mut tail: Vec<char> = Vec::new();
    tail.push(':');
    let mut digits = decimal_text(port as u64);
    tail.append(&mut digits);
    let t = string_of(tail.as_slice());
    m.append(t.as_str());
    proof {
        let start = match side {
            AddressSide::Bind => "Invalid bind address: "@,
            AddressSide::Connect => "Invalid connect address: "@,
        };
        assert(tail@ =~= seq![':'] + spec_decimal_text(port as nat));
        assert(m@ =~= start + address@ + seq![':'] + spec_decimal_text(port as nat));
    }
    ConfigError::ParseError(m)
}

impl LegacyParse {
    /// The outcome of loading the file, given the first address that could
    /// not be resolved, if there is one.
    pub fn finish(self, unresolved: Option<UnresolvedAddress>) -> (r: Result<Config, ConfigError>)
        ensures
            match r {
                Ok(c) => spec_finish(self@, unresolved) == Ok::<ConfigView, ConfigErrorView>(c@),
                Err(e) => spec_finish(self@, unresolved) == Err::<ConfigView, ConfigErrorView>(e@),
            },
    {
        match unresolved {
            Some(u) => {
                if u.rule < self.config.forwarding_rules.len() {
                    assert(self@.config.forwarding_rules[u.rule as int]
                        == self.config.forwarding_rules@[u.rule as int]@);
                    return Err(address_error(&self.config.forwarding_rules[u.rule], u.side));
                }
            },
            None => {},
        }
        match self.error {
            Some(e) => Err(e),
            None => Ok(self.config),
        }
    }
}

/// The text of a configuration file, read as far as its format lets the
/// library read it.
#[derive(Debug)]
pub enum Loaded {
    /// The file is TOML: its text is for the TOML decoder.
    Toml,
    /// The file is in the legacy format: what its lines hold.
    Legacy(LegacyParse),
}

/// A loaded file as a mathematical value.
pub enum LoadedView {
    Toml,
    Legacy(LegacyParseView),
}

impl View for Loaded {
    type V = LoadedView;

    open spec fn view(&self) -> LoadedView {
        match self {
            Loaded::Toml => LoadedView::Toml,
            Loaded::Legacy(parse) => LoadedView::Legacy(parse@),
        }
    }
}

/// What loading the file at `path` with the text `content` gives.
pub open spec fn spec_load(path: Seq<char>, content: Seq<char>) -> LoadedView {
    match spec_format_of(path) {
        ConfigFormat::Toml => LoadedView::Toml,
        ConfigFormat::Legacy => LoadedView::Legacy(spec_legacy_parse(spec_split(content, '\n'))),
    }
}

impl Config {
    /// Loads the configuration file at `path`, whose text is `content`. A
    /// path that ends in `.toml` names a TOML file, which is left to the
    /// decoder; any other path names a legacy file, which is read here.
    pub fn load_from_file(path: &str, content: &str) -> (r: Loaded)
        ensures
            r@ == spec_load(path@, content@),
    {
        match format_of(path) {
            ConfigFormat::Toml => Loaded::Toml,
            ConfigFormat::Legacy => Loaded::Legacy(Self::parse_legacy_conf(content)),
        }
    }

    /// Reads the text of a legacy file: one rule to a line, `#` for
    /// comments. The lines are the pieces between line feeds.
    pub fn parse_legacy_conf(content: &str) -> (r: LegacyParse)
        ensures
            r@ == spec_legacy_parse(spec_split(content@, '\n')),
    {
        let chars = chars_of(content);
        let lines = split(chars.as_slice(), '\n');
        let ghost all = spec_split(content@, '\n');
        let mut global_rules: Vec<AccessRule> = Vec::new();
        let mut forwarding_rules: Vec<ForwardingRule> = Vec::new();
        let mut i: usize = 0;
        assert(all.take(0) =~= Seq::<Seq<char>>::empty());
        assert(access_rules_view(global_rules@) =~= Seq::empty());
        assert(forwarding_rules_view(forwarding_rules@) =~= Seq::empty());
        while i < lines.len()
            invariant
                i <= lines.len(),
                pieces_view(lines@) == all,
                all == spec_split(content@, '\n'),
                spec_legacy_parse(all.take(i as int)) == (LegacyParseView {
                    config: ConfigView {
                        global_rules: access_rules_view(global_rules@),
                        forwarding_rules: forwarding_rules_view(forwarding_rules@),
                        ..spec_legacy_start()
                    },
                    error: None,
                }),
            decreases lines.len() - i,
        {
            proof {
                assert(all.take(i as int + 1).drop_last() =~= all.take(i as int));
                assert(all.take(i as int + 1).last() == lines@[i as int]@);
            }
            match parse_legacy_line(lines[i].as_slice()) {
                Err(e) => {
                    proof {
                        lemma_legacy_parse_stops(all, i as int + 1);
                    }
                    return LegacyParse {
                        config: Config {
                            global_rules,
                            forwarding_rules,
                            log_file: None,
                            pid_file: None,
                            log_format: LogFormat::Rinetd,
                        },
                        error: Some(e),
                    };
                },
                Ok(LegacyLine::Blank) => {},
                Ok(LegacyLine::Forwarding(rule)) => {
                    let ghost before = forwarding_rules@;
                    forwarding_rules.push(rule);
                    assert(forwarding_rules_view(forwarding_rules@) =~= forwarding_rules_view(
                        before,
                    ).push(rule@));
                },
                Ok(LegacyLine::Access(rule)) => {
                    let ghost before = global_rules@;
                    global_rules.push(rule);
                    assert(access_rules_view(global_rules@) =~= access_rules_view(before).push(
                        rule@,
                    ));
                },
            }
            i = i + 1;
        }
        assert(all.take(lines.len() as int) =~= all);
        LegacyParse {
            config: Config {
                global_rules,
                forwarding_rules,
                log_file: None,
                pid_file: None,
                log_format: LogFormat::Rinetd,
            },
            error: None,
        }
    }
}

} // verus!
