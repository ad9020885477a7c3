//! Text the library renders for its callers: the ssh command line for a
//! record, and ssh-config entries for a whole list.

use vstd::prelude::*;

use crate::models::{views_of, Server, ServerView};

verus! {

/// The decimal digit characters `'0'` through `'9'`.
pub open spec fn spec_digit(d: int) -> char {
    if d == 0 {
        '0'
    } else if d == 1 {
        '1'
    } else if d == 2 {
        '2'
    } else if d == 3 {
        '3'
    } else if d == 4 {
        '4'
    } else if d == 5 {
        '5'
    } else if d == 6 {
        '6'
    } else if d == 7 {
        '7'
    } else if d == 8 {
        '8'
    } else {
        '9'
    }
}

/// The decimal rendering of a non-negative number, most significant
/// digit first, with no leading zeroes (zero itself is `"0"`).
pub open spec fn spec_dec_str(n: int) -> Seq<char>
    decreases n,
{
    if n < 10 {
        seq![spec_digit(n)]
    } else {
        spec_dec_str(n / 10).push(spec_digit(n % 10))
    }
}

/// One decimal digit as text.
fn digit_str(d: u64) -> (r: &'static str)
    requires
        d < 10,
    ensures
        r@ == seq![spec_digit(d as int)],
{
    let r = match d {
        0 => "0",
        1 => "1",
        2 => "2",
        3 => "3",
        4 => "4",
        5 => "5",
        6 => "6",
        7 => "7",
        8 => "8",
        _ => "9",
    };
    proof {
        reveal_strlit("0");
        reveal_strlit("1");
        reveal_strlit("2");
        reveal_strlit("3");
        reveal_strlit("4");
        reveal_strlit("5");
        reveal_strlit("6");
        reveal_strlit("7");
        reveal_strlit("8");
        reveal_strlit("9");
        assert(r@ =~= seq![spec_digit(d as int)]);
    }
    r
}

/// Appends the decimal rendering of `x`.
pub fn push_dec(out: &mut String, x: u64)
    ensures
        final(out)@ == old(out)@ + spec_dec_str(x as int),
    decreases x,
{
    if x < 10 {
        out.append(digit_str(x));
    } else {
        push_dec(out, x / 10);
        out.append(digit_str(x % 10));
        proof {
            assert(out@ =~= old(out)@ + spec_dec_str(x as int));
        }
    }
}

/// The decimal rendering of `x` as a fresh string.
pub fn u64_to_string(x: u64) -> (r: String)
    ensures
        r@ == spec_dec_str(x as int),
{
    let mut out = String::new();
    push_dec(&mut out, x);
    proof {
        assert(out@ =~= spec_dec_str(x as int));
    }
    out
}

/// The command line that connects to a record's server:
/// `ssh <user>@<host> -p <port>`.
pub open spec fn spec_ssh_command(v: ServerView) -> Seq<char> {
    "ssh "@ + v.username + "@"@ + v.host + " -p "@ + spec_dec_str(v.port as int)
}

impl Server {
    /// Renders the ssh command line for this record.  The password is
    /// deliberately not part of it.
    pub fn ssh_command(&self) -> (r: String)
        ensures
            r@ == spec_ssh_command(self@),
    {
        let mut out = String::new();
        out.append("ssh ");
        out.append(self.username.as_str());
        out.append("@");
        out.append(self.host.as_str());
        out.append(" -p ");
        push_dec(&mut out, self.port as u64);
        proof {
            assert(out@ =~= spec_ssh_command(self@));
        }
        out
    }
}

/// One ssh-config entry for a record: host alias, host name, user and
/// port, indented as ssh expects.  No password stands in it.
pub open spec fn spec_ssh_config_entry(v: ServerView) -> Seq<char> {
    "Host "@ + v.name + "\n  HostName "@ + v.host + "\n  User "@ + v.username + "\n  Port "@
        + spec_dec_str(v.port as int) + "\n\n"@
}

/// The ssh-config entries for a list of records, in order.
pub open spec fn spec_ssh_config(vs: Seq<ServerView>) -> Seq<char>
    decreases vs.len(),
{
    if vs.len() == 0 {
        Seq::empty()
    } else {
        spec_ssh_config_entry(vs[0]) + spec_ssh_config(vs.drop_first())
    }
}

/// One more record extends the rendered entries at the end.
proof fn lemma_ssh_config_snoc(vs: Seq<ServerView>, v: ServerView)
    ensures
        spec_ssh_config(vs.push(v)) == spec_ssh_config(vs) + spec_ssh_config_entry(v),
    decreases vs.len(),
{
    if vs.len() == 0 {
        assert(vs.push(v)[0] == v);
        assert(vs.push(v).drop_first() =~= Seq::<ServerView>::empty());
        assert(spec_ssh_config(vs.push(v).drop_first()) == Seq::<char>::empty());
        assert(spec_ssh_config(vs.push(v)) == spec_ssh_config_entry(v) + Seq::<char>::empty());
        assert(spec_ssh_config_entry(v) + Seq::<char>::empty() =~= Seq::<char>::empty()
            + spec_ssh_config_entry(v));
    } else {
        assert(vs.push(v).drop_first() =~= vs.drop_first().push(v));
        lemma_ssh_config_snoc(vs.drop_first(), v);
        assert(vs.push(v)[0] == vs[0]);
        let a = spec_ssh_config_entry(vs[0]);
        let b = spec_ssh_config(vs.drop_first());
        let c = spec_ssh_config_entry(v);
        assert(spec_ssh_config(vs.push(v)) == a + (b + c));
        assert(a + (b + c) =~= (a + b) + c);
    }
}

/// Appends one ssh-config entry.
fn push_entry(out: &mut String, s: &Server)
    ensures
        final(out)@ == old(out)@ + spec_ssh_config_entry(s@),
{
    out.append("Host ");
    out.append(s.name.as_str());
    out.append("\n  HostName ");
    out.append(s.host.as_str());
    out.append("\n  User ");
    out.append(s.username.as_str());
    out.append("\n  Port ");
    push_dec(out, s.port as u64);
    out.append("\n\n");
    proof {
        assert(out@ =~= old(out)@ + spec_ssh_config_entry(s@));
    }
}

/// Renders ssh-config entries for all the records, in order.  Passwords
/// never appear: ssh config does not carry them.
pub fn ssh_config_text(servers: &Vec<Server>) -> (r: String)
    ensures
        r@ == spec_ssh_config(views_of(servers@)),
{
    let ghost vs = views_of(servers@);
    let mut out = String::new();
    let mut i: usize = 0;
    while i < servers.len()
        invariant
            i <= servers@.len(),
            vs == views_of(servers@),
            vs.len() == servers@.len(),
            out@ == spec_ssh_config(vs.take(i as int)),
        decreases servers@.len() - i,
    {
        push_entry(&mut out, &servers[i]);
        proof {
            assert(vs[i as int] == servers@[i as int]@);
            lemma_ssh_config_snoc(vs.take(i as int), vs[i as int]);
            assert(vs.take(i as int).push(vs[i as int]) =~= vs.take(i + 1));
        }
        i = i + 1;
    }
    proof {
        assert(vs.take(vs.len() as int) =~= vs);
    }
    out
}

} // verus!
