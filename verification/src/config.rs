//! The configuration of the proxy as plain values: forwarding rules, access
//! rules and the settings of the process.

use vstd::prelude::*;
use crate::text::str_equal;

verus! {

/// Transport pairing of one forwarding rule: what the proxy listens on and
/// what it speaks to the remote.
#[derive(Debug, Clone, Copy, PartialEq, Eq, Structural)]
pub enum Protocol {
    Tcp,
    Udp,
    UdpToTcp,
    TcpToUdp,
}

/// The kind of socket a rule listens on.
#[derive(Debug, Clone, Copy, PartialEq, Eq, Structural)]
pub enum Listener {
    Tcp,
    Udp,
}

/// Idle timeout of a UDP session, in seconds, when a rule names none.
pub const DEFAULT_UDP_TIMEOUT_SECS: u64 = 72;

impl Protocol {
    /// The tag of each protocol in configuration text.
    pub open spec fn spec_tag(self) -> Seq<char> {
        match self {
            Protocol::Tcp => seq!['t', 'c', 'p'],
            Protocol::Udp => seq!['u', 'd', 'p'],
            Protocol::UdpToTcp => seq!['u', 'd', 'p', 't', 'o', 't', 'c', 'p'],
            Protocol::TcpToUdp => seq!['t', 'c', 'p', 't', 'o', 'u', 'd', 'p'],
        }
    }

    /// The protocol that a tag names, if any. Tags are matched letter for
    /// letter, in lower case.
    pub open spec fn spec_from_tag(tag: Seq<char>) -> Option<Protocol> {
        if tag == Protocol::Tcp.spec_tag() {
            Some(Protocol::Tcp)
        } else if tag == Protocol::Udp.spec_tag() {
            Some(Protocol::Udp)
        } else if tag == Protocol::UdpToTcp.spec_tag() {
            Some(Protocol::UdpToTcp)
        } else if tag == Protocol::TcpToUdp.spec_tag() {
            Some(Protocol::TcpToUdp)
        } else {
            None
        }
    }

    /// The socket kind of the listening side.
    pub open spec fn spec_listener(self) -> Listener {
        match self {
            Protocol::Tcp | Protocol::TcpToUdp => Listener::Tcp,
            Protocol::Udp | Protocol::UdpToTcp => Listener::Udp,
        }
    }

    /// The tag of this protocol in configuration text.
    pub fn tag(&self) -> (r: &'static str)
        ensures
            r@ == self.spec_tag(),
    {
        proof {
            reveal_strlit("tcp");
            reveal_strlit("udp");
            reveal_strlit("udptotcp");
            reveal_strlit("tcptoudp");
        }
        let r = match self {
            Protocol::Tcp => "tcp",
            Protocol::Udp => "udp",
            Protocol::UdpToTcp => "udptotcp",
            Protocol::TcpToUdp => "tcptoudp",
        };
        assert(r@ =~= self.spec_tag());
        r
    }

    /// Reads a protocol tag.
    pub fn from_tag(tag: &str) -> (r: Option<Protocol>)
        ensures
            r == Self::spec_from_tag(tag@),
    {
        if str_equal(tag, Protocol::Tcp.tag()) {
            Some(Protocol::Tcp)
        } else if str_equal(tag, Protocol::Udp.tag()) {
            Some(Protocol::Udp)
        } else if str_equal(tag, Protocol::UdpToTcp.tag()) {
            Some(Protocol::UdpToTcp)
        } else if str_equal(tag, Protocol::TcpToUdp.tag()) {
            Some(Protocol::TcpToUdp)
        } else {
            None
        }
    }

    /// Which kind of socket a rule of this protocol listens on: TCP for
    /// `Tcp` and `TcpToUdp`, UDP for `Udp` and `UdpToTcp`.
    pub fn listener(&self) -> (r: Listener)
        ensures
            r == self.spec_listener(),
    {
        match self {
            Protocol::Tcp | Protocol::TcpToUdp => Listener::Tcp,
            Protocol::Udp | Protocol::UdpToTcp => Listener::Udp,
        }
    }
}

impl Default for Protocol {
    fn default() -> (r: Protocol)
        ensures
            r == Protocol::Tcp,
    {
        Protocol::Tcp
    }
}

/// Every protocol is the one that its own tag names.
pub proof fn lemma_protocol_tag_roundtrip(p: Protocol)
    ensures
        Protocol::spec_from_tag(p.spec_tag()) == Some(p),
{
    assert(Protocol::Tcp.spec_tag().len() == 3);
    assert(Protocol::Udp.spec_tag().len() == 3);
    assert(Protocol::UdpToTcp.spec_tag().len() == 8);
    assert(Protocol::TcpToUdp.spec_tag().len() == 8);
    assert(Protocol::Tcp.spec_tag()[0] == 't');
    assert(Protocol::Udp.spec_tag()[0] == 'u');
    assert(Protocol::UdpToTcp.spec_tag()[0] == 'u');
    assert(Protocol::TcpToUdp.spec_tag()[0] == 't');
}

/// Whether an access rule lets a matching source in or keeps it out.
#[derive(Debug, Clone, Copy, PartialEq, Eq, Structural)]
pub enum RuleType {
    Allow,
    Deny,
}

impl RuleType {
    /// The word of each rule type in configuration text.
    pub open spec fn spec_word(self) -> Seq<char> {
        match self {
            RuleType::Allow => seq!['a', 'l', 'l', 'o', 'w'],
            RuleType::Deny => seq!['d', 'e', 'n', 'y'],
        }
    }

    /// The rule type that a word names, if any; the word is in lower case.
    pub open spec fn spec_from_word(word: Seq<char>) -> Option<RuleType> {
        if word == RuleType::Allow.spec_word() {
            Some(RuleType::Allow)
        } else if word == RuleType::Deny.spec_word() {
            Some(RuleType::Deny)
        } else {
            None
        }
    }

    /// The word of this rule type in configuration text.
    pub fn word(&self) -> (r: &'static str)
        ensures
            r@ == self.spec_word(),
    {
        proof {
            reveal_strlit("allow");
            reveal_strlit("deny");
        }
        let r = match self {
            RuleType::Allow => "allow",
            RuleType::Deny => "deny",
        };
        assert(r@ =~= self.spec_word());
        r
    }

    /// Reads the word of a rule type.
    pub fn from_word(word: &str) -> (r: Option<RuleType>)
        ensures
            r == Self::spec_from_word(word@),
    {
        if str_equal(word, RuleType::Allow.word()) {
            Some(RuleType::Allow)
        } else if str_equal(word, RuleType::Deny.word()) {
            Some(RuleType::Deny)
        } else {
            None
        }
    }
}

/// One entry of an access list: a rule type and the pattern of source
/// addresses that it applies to.
#[derive(Debug, Clone)]
pub struct AccessRule {
    pub rule_type: RuleType,
    pub pattern: String,
}

/// An access rule as a mathematical value.
pub struct AccessRuleView {
    pub rule_type: RuleType,
    pub pattern: Seq<char>,
}

impl View for AccessRule {
    type V = AccessRuleView;

    open spec fn view(&self) -> AccessRuleView {
        AccessRuleView { rule_type: self.rule_type, pattern: self.pattern@ }
    }
}

/// The views of a list of access rules, in order.
pub open spec fn access_rules_view(rules: Seq<AccessRule>) -> Seq<AccessRuleView> {
    rules.map_values(|r: AccessRule| r@)
}

/// One forwarding rule: where to listen, where to relay to, and how.
#[derive(Debug, Clone)]
pub struct ForwardingRule {
    pub bind_address: String,
    pub bind_port: u16,
    pub connect_address: String,
    pub connect_port: u16,
    pub protocol: Protocol,
    /// Idle timeout of UDP sessions in seconds.
    pub timeout: Option<u64>,
    /// Local address to open outbound connections from.
    pub source_address: Option<String>,
    pub rules: Vec<AccessRule>,
}

/// A forwarding rule as a mathematical value.
pub struct ForwardingRuleView {
    pub bind_address: Seq<char>,
    pub bind_port: u16,
    pub connect_address: Seq<char>,
    pub connect_port: u16,
    pub protocol: Protocol,
    pub timeout: Option<u64>,
    pub source_address: Option<Seq<char>>,
    pub rules: Seq<AccessRuleView>,
}

impl View for ForwardingRule {
    type V = ForwardingRuleView;

    open spec fn view(&self) -> ForwardingRuleView {
        ForwardingRuleView {
            bind_address: self.bind_address@,
            bind_port: self.bind_port,
            connect_address: self.connect_address@,
            connect_port: self.connect_port,
            protocol: self.protocol,
            timeout: self.timeout,
            source_address: match self.source_address {
                Some(s) => Some(s@),
                None => None,
            },
            rules: access_rules_view(self.rules@),
        }
    }
}

/// The views of a list of forwarding rules, in order.
pub open spec fn forwarding_rules_view(rules: Seq<ForwardingRule>) -> Seq<ForwardingRuleView> {
    rules.map_values(|r: ForwardingRule| r@)
}

impl ForwardingRule {
    /// The idle timeout of this rule's UDP sessions in seconds: the
    /// configured one, or the default of 72 seconds.
    pub open spec fn spec_session_timeout(timeout: Option<u64>) -> u64 {
        match timeout {
            Some(secs) => secs,
            None => DEFAULT_UDP_TIMEOUT_SECS,
        }
    }

    /// The idle timeout of this rule's UDP sessions in seconds.
    pub fn session_timeout(&self) -> (r: u64)
        ensures
            r == Self::spec_session_timeout(self.timeout),
    {
        match self.timeout {
            Some(secs) => secs,
            None => DEFAULT_UDP_TIMEOUT_SECS,
        }
    }
}

/// Layout of the lines of the log file.
#[derive(Debug, Clone, Copy, PartialEq, Eq, Structural)]
pub enum LogFormat {
    Rinetd,
    Common,
}

impl Default for LogFormat {
    fn default() -> (r: LogFormat)
        ensures
            r == LogFormat::Rinetd,
    {
        LogFormat::Rinetd
    }
}

/// The whole configuration of the proxy.
#[derive(Debug)]
pub struct Config {
    /// Access rules that hold for every forwarding rule.
    pub global_rules: Vec<AccessRule>,
    pub forwarding_rules: Vec<ForwardingRule>,
    pub log_file: Option<String>,
    pub pid_file: Option<String>,
    pub log_format: LogFormat,
}

/// A configuration as a mathematical value.
pub struct ConfigView {
    pub global_rules: Seq<AccessRuleView>,
    pub forwarding_rules: Seq<ForwardingRuleView>,
    pub log_file: Option<Seq<char>>,
    pub pid_file: Option<Seq<char>>,
    pub log_format: LogFormat,
}

impl View for Config {
    type V = ConfigView;

    open spec fn view(&self) -> ConfigView {
        ConfigView {
            global_rules: access_rules_view(self.global_rules@),
            forwarding_rules: forwarding_rules_view(self.forwarding_rules@),
            log_file: match self.log_file {
                Some(s) => Some(s@),
                None => None,
            },
            pid_file: match self.pid_file {
                Some(s) => Some(s@),
                None => None,
            },
            log_format: self.log_format,
        }
    }
}

} // verus!
