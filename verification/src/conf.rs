//! The client's and the server's configuration, and the `host:port` texts
//! that their listening and server addresses are parsed from. Ports above
//! 65535 are refused here; whether the host is an IP address is decided by
//! the socket-address parser that reads the text.

use vstd::prelude::*;
use vstd::string::StringExecFns;

verus! {

/// The decimal digit `d` (below 10) as a character.
pub open spec fn digit_char(d: nat) -> char {
    (48 + d) as char
}

/// The decimal text of `n`, without leading zeros ("0" for zero).
pub open spec fn decimal(n: nat) -> Seq<char>
    decreases n,
{
    if n < 10 {
        seq![digit_char(n)]
    } else {
        decimal(n / 10).push(digit_char(n % 10))
    }
}

/// The text `host:port` with the port in decimal.
pub open spec fn host_port(host: Seq<char>, port: nat) -> Seq<char> {
    host + seq![':'] + decimal(port)
}

fn digit_str(d: u32) -> (res: &'static str)
    requires
        d < 10,
    ensures
        res@ == seq![digit_char(d as nat)],
{
    proof {
        reveal_strlit("0");
        reveal_strlit("1");
        reveal_strlit("2");
        reveal_strlit("3");
        reveal_strlit("4");
        reveal_strlit("5");
        reveal_strlit("6");
        reveal_strlit("7");
        reveal_strlit("8");
        reveal_strlit("9");
    }
    match d {
        0 => "0",
        1 => "1",
        2 => "2",
        3 => "3",
        4 => "4",
        5 => "5",
        6 => "6",
        7 => "7",
        8 => "8",
        _ => "9",
    }
}

fn push_decimal(text: &mut String, n: u32)
    ensures
        final(text)@ == old(text)@ + decimal(n as nat),
    decreases n,
{
    if n >= 10 {
        push_decimal(text, n / 10);
    }
    text.append(digit_str(n % 10));
}

fn host_port_text(host: &String, port: u32) -> (res: String)
    ensures
        res@ == host_port(host@, port as nat),
{
    let mut text = host.clone();
    proof {
        reveal_strlit(":");
    }
    text.append(":");
    push_decimal(&mut text, port);
    text
}

/// The client's settings: where it listens, its password, and the server.
#[derive(Debug)]
pub struct ClientConf {
    pub listen_addr: String,
    pub port: u32,
    pub password: String,
    pub server_addr: String,
    pub server_port: u32,
}

impl ClientConf {
    /// The `listen_addr:port` text the client binds to. A port above 65535
    /// makes no socket address, and is refused.
    pub fn to_listen_addr(&self) -> (res: String)
        requires
            self.port <= u16::MAX,
        ensures
            res@ == host_port(self.listen_addr@, self.port as nat),
    {
        host_port_text(&self.listen_addr, self.port)
    }

    /// The `server_addr:server_port` text of the server the client dials. A
    /// port above 65535 makes no socket address, and is refused.
    pub fn to_server_listen_addr(&self) -> (res: String)
        requires
            self.server_port <= u16::MAX,
        ensures
            res@ == host_port(self.server_addr@, self.server_port as nat),
    {
        host_port_text(&self.server_addr, self.server_port)
    }
}

/// The server's settings: where it listens.
#[derive(Debug)]
pub struct ServerConf {
    pub listen_addr: String,
    pub port: u32,
}

impl ServerConf {
    /// The `listen_addr:port` text the server binds to. A port above 65535
    /// makes no socket address, and is refused.
    pub fn to_listen_addr(&self) -> (res: String)
        requires
            self.port <= u16::MAX,
        ensures
            res@ == host_port(self.listen_addr@, self.port as nat),
    {
        host_port_text(&self.listen_addr, self.port)
    }
}

/// The number a text of decimal digits stands for, read from its first
/// character to its last, each character standing for its code minus that
/// of `0`.
pub open spec fn decimal_value(text: Seq<char>) -> int
    decreases text.len(),
{
    if text.len() == 0 {
        0
    } else {
        decimal_value(text.drop_last()) * 10 + (text.last() as int - '0' as int)
    }
}

/// The decimal text of a number is made of the digits `0` to `9`, has no
/// leading zero (unless the number is 0), and reads back as the number.
pub proof fn lemma_decimal_reads_back(n: nat)
    ensures
        decimal(n).len() >= 1,
        forall|i: int| 0 <= i < decimal(n).len() ==> '0' <= #[trigger] decimal(n)[i] <= '9',
        decimal(n)[0] == '0' ==> n == 0,
        decimal_value(decimal(n)) == n,
    decreases n,
{
    if n < 10 {
        assert(decimal(n) == seq![digit_char(n)]);
        assert(decimal(n).drop_last() =~= Seq::<char>::empty());
        assert(digit_char(n) as int == 48 + n);
        assert('0' as int == 48);
        assert(decimal_value(Seq::<char>::empty()) == 0);
        assert(decimal(n).last() == digit_char(n));
        assert(decimal_value(decimal(n)) == decimal_value(decimal(n).drop_last()) * 10 + (
        decimal(n).last() as int - '0' as int));
    } else {
        let q = n / 10;
        let r = n % 10;
        lemma_decimal_reads_back(q);
        let d = decimal(n);
        assert(d == decimal(q).push(digit_char(r)));
        assert(d.drop_last() =~= decimal(q));
        assert(d[0] == decimal(q)[0]);
        assert(digit_char(r) as int == 48 + r);
        assert('0' as int == 48);
        assert(d.last() == digit_char(r));
        assert(decimal_value(d) == decimal_value(d.drop_last()) * 10 + (d.last() as int
            - '0' as int));
        assert(q * 10 + r == n) by (nonlinear_arith)
            requires
                q == n / 10,
                r == n % 10,
        ;
        assert forall|i: int| 0 <= i < d.len() implies '0' <= #[trigger] d[i] <= '9' by {
            if i < d.len() - 1 {
                assert(d[i] == decimal(q)[i]);
            }
        }
    }
}

/// The address text of a host and a port is the host, a `:`, and then a
/// decimal numeral with no leading zero that reads back as the port.
pub proof fn lemma_host_port_reads_back(host: Seq<char>, port: nat)
    ensures
        ({
            let text = host_port(host, port);
            let digits = text.subrange(host.len() + 1int, text.len() as int);
            &&& text.len() > host.len() + 1
            &&& text.subrange(0, host.len() as int) == host
            &&& text[host.len() as int] == ':'
            &&& forall|i: int| 0 <= i < digits.len() ==> '0' <= #[trigger] digits[i] <= '9'
            &&& digits[0] == '0' ==> port == 0
            &&& decimal_value(digits) == port
        }),
{
    lemma_decimal_reads_back(port);
    let text = host_port(host, port);
    assert(text.subrange(host.len() + 1int, text.len() as int) =~= decimal(port));
    assert(text.subrange(0, host.len() as int) =~= host);
}

} // verus!
