//! The firewall: what `nft` is told, and what its answers mean.
//!
//! Everything lives in a table of its own, `inet vortexwall`. Banned addresses are
//! elements of two sets with timeouts, one for each family, so that nftables lifts
//! every ban by itself.

use vstd::prelude::*;
use vstd::utf8::{decode_utf8, valid_utf8};

use crate::command::{strs, Command, Invocation, Output};
use crate::ip::{address_text, addresses, addresses_among, Address, IpAddr};
use crate::text::{chars_of, contains, dec, occurs, push_dec, split, views, Separator};
use crate::time::{Duration, NANOS_PER_SEC};

verus! {

/// The table, with its family.
pub const TABLE: &'static str = "inet vortexwall";

/// The set of an address's family.
pub open spec fn set_of(a: Address) -> Seq<char> {
    match a {
        Address::V4(_) => "blackhole"@,
        Address::V6(_) => "blackhole6"@,
    }
}

/// Running the script `script` with `nft`, which reads it from standard input.
pub open spec fn script_command(script: Seq<char>) -> Command {
    Command { program: "nft"@, args: seq!["-f"@, "-"@], stdin: Some(script) }
}

fn script_invocation(script: String) -> (r: Invocation)
    ensures
        r@ == script_command(script@),
{
    let args: Vec<&str> = vec!["-f", "-"];
    let mut r: Invocation = Invocation::new("nft", &args);
    r.stdin = Some(script);
    assert(strs(args@) =~= seq!["-f"@, "-"@]);
    r
}

/// The script that creates the table, the two sets, and the chain that drops what
/// comes from an address in them. The chain hooks `prerouting` at priority -300,
/// ahead of connection tracking.
pub open spec fn setup_script() -> Seq<char> {
    "\nadd table "@ + TABLE@ + "\nadd set "@ + TABLE@
        + " blackhole { type ipv4_addr; flags timeout; }\nadd set "@ + TABLE@
        + " blackhole6 { type ipv6_addr; flags timeout; }\nadd chain "@ + TABLE@
        + " drop_blackholed { type filter hook prerouting priority -300; policy accept; }\nflush chain "@
        + TABLE@ + " drop_blackholed\nadd rule "@ + TABLE@
        + " drop_blackholed ip saddr @blackhole drop\nadd rule "@ + TABLE@
        + " drop_blackholed ip6 saddr @blackhole6 drop\n"@
}

/// Creates the table with all that is in it. Every statement but one is an `add`,
/// which does nothing where the thing exists already, and that one flushes the chain
/// before its rules are added, so it can be run at every start.
pub fn setup() -> (r: Invocation)
    ensures
        r@ == script_command(setup_script()),
{
    let mut s: String = "\nadd table ".to_string();
    s.append(TABLE);
    s.append("\nadd set ");
    s.append(TABLE);
    s.append(" blackhole { type ipv4_addr; flags timeout; }\nadd set ");
    s.append(TABLE);
    s.append(" blackhole6 { type ipv6_addr; flags timeout; }\nadd chain ");
    s.append(TABLE);
    s.append(
        " drop_blackholed { type filter hook prerouting priority -300; policy accept; }\nflush chain ",
    );
    s.append(TABLE);
    s.append(" drop_blackholed\nadd rule ");
    s.append(TABLE);
    s.append(" drop_blackholed ip saddr @blackhole drop\nadd rule ");
    s.append(TABLE);
    s.append(" drop_blackholed ip6 saddr @blackhole6 drop\n");
    script_invocation(s)
}

/// Removes the table, and with it every rule and every ban.
pub fn teardown() -> (r: Invocation)
    ensures
        r@ == (Command {
            program: "nft"@,
            args: seq!["delete"@, "table"@, "inet"@, "vortexwall"@],
            stdin: None,
        }),
{
    let args: Vec<&str> = vec!["delete", "table", "inet", "vortexwall"];
    assert(strs(args@) =~= seq!["delete"@, "table"@, "inet"@, "vortexwall"@]);
    Invocation::new("nft", &args)
}

/// The set that an address of this family goes into.
pub fn set_name(ip: &IpAddr) -> (r: &'static str)
    ensures
        r@ == set_of(ip@),
{
    match ip {
        IpAddr::V4(_) => "blackhole",
        IpAddr::V6(_) => "blackhole6",
    }
}

/// The script that bans `a` for `secs` seconds.
pub open spec fn ban_script(a: Address, secs: nat) -> Seq<char> {
    "add element "@ + TABLE@ + " "@ + set_of(a) + " { "@ + address_text(a) + " timeout "@ + dec(
        secs,
    ) + "s }"@
}

/// The whole seconds of a ban, of which there is always at least one.
pub open spec fn ban_secs_of(duration: Duration) -> nat {
    if duration.total() < NANOS_PER_SEC {
        1
    } else {
        duration.total() / (NANOS_PER_SEC as nat)
    }
}

/// Bans `ip` for the whole seconds of `duration`, and for no less than one.
pub fn ban(ip: IpAddr, duration: Duration) -> (r: Invocation)
    ensures
        r@ == script_command(ban_script(ip@, ban_secs_of(duration))),
{
    let whole: u64 = duration.as_secs();
    let secs: u64 = if whole < 1 {
        1
    } else {
        whole
    };
    let mut s: String = "add element ".to_string();
    s.append(TABLE);
    s.append(" ");
    s.append(set_name(&ip));
    s.append(" { ");
    ip.push_text(&mut s);
    s.append(" timeout ");
    push_dec(&mut s, secs);
    s.append("s }");
    script_invocation(s)
}

/// The script that lifts the ban of `a`.
pub open spec fn unban_script(a: Address) -> Seq<char> {
    "delete element "@ + TABLE@ + " "@ + set_of(a) + " { "@ + address_text(a) + " }"@
}

/// Lifts the ban of `ip`.
pub fn unban(ip: IpAddr) -> (r: Invocation)
    ensures
        r@ == script_command(unban_script(ip@)),
{
    let mut s: String = "delete element ".to_string();
    s.append(TABLE);
    s.append(" ");
    s.append(set_name(&ip));
    s.append(" { ");
    ip.push_text(&mut s);
    s.append(" }");
    script_invocation(s)
}

// ---------------------------------------------------------------------------
// What nft answers
// ---------------------------------------------------------------------------

/// Bytes that are not valid UTF-8 as text, with the offending sequences
/// replaced.
pub uninterp spec fn utf8_lossy(bytes: Seq<u8>) -> Seq<char>;

/// The text that bytes encode: decoded if they are valid UTF-8, else with the
/// offending sequences replaced.
pub open spec fn text_of(bytes: Seq<u8>) -> Seq<char> {
    if valid_utf8(bytes) {
        decode_utf8(bytes)
    } else {
        utf8_lossy(bytes)
    }
}

/// `String::from_utf8_lossy`: bytes that are valid UTF-8 are decoded as they
/// stand. Of others it is only said that the bytes decide what comes out; how
/// their invalid sequences are replaced is left to `utf8_lossy`.
#[verifier::external_body]
fn lossy_text(bytes: &Vec<u8>) -> (r: String)
    ensures
        r@ == if valid_utf8(bytes@) {
            decode_utf8(bytes@)
        } else {
            utf8_lossy(bytes@)
        },
{
    String::from_utf8_lossy(bytes).into_owned()
}

/// What a program wrote to standard error.
pub fn stderr_of(output: &Output) -> (r: String)
    ensures
        r@ == text_of(output.stderr@),
{
    lossy_text(&output.stderr)
}

/// The text of a failure of `nft`.
pub open spec fn error_text(what: Seq<char>, stderr: Seq<char>) -> Seq<char> {
    "nft failed on `"@ + what + "`: "@ + stderr
}

/// Describes a failure of `nft`, given what it was told and what it wrote to
/// standard error.
pub fn describe_failure(what: &str, stderr: &str) -> (r: String)
    ensures
        r@ == error_text(what@, stderr@),
{
    let mut r: String = "nft failed on `".to_string();
    r.append(what);
    r.append("`: ");
    r.append(stderr);
    r
}

/// Describes the failure that `output` came of.
pub fn nft_error(what: &str, output: &Output) -> (r: String)
    ensures
        r@ == error_text(what@, text_of(output.stderr@)),
{
    let stderr: String = stderr_of(output);
    describe_failure(what, stderr.as_str())
}

/// What running `script` came to.
pub fn script_outcome(script: &str, output: &Output) -> (r: Result<(), String>)
    ensures
        r is Ok <==> output.success,
        r is Err ==> r->Err_0@ == error_text(script@, text_of(output.stderr@)),
{
    if output.success {
        Ok(())
    } else {
        Err(nft_error(script, output))
    }
}

/// What `nft` says of a table that is not there.
pub const NO_SUCH_TABLE: &'static str = "No such file or directory";

/// What removing the table came to, given whether `nft` succeeded and what it
/// wrote to standard error. That there is no table to remove is no error.
pub fn judge_teardown(success: bool, stderr: &str) -> (r: Result<(), String>)
    ensures
        r is Ok <==> success || occurs(NO_SUCH_TABLE@, stderr@),
        r is Err ==> r->Err_0@ == error_text("delete table"@, stderr@),
{
    if success || contains(stderr, NO_SUCH_TABLE) {
        Ok(())
    } else {
        Err(describe_failure("delete table", stderr))
    }
}

/// What running `teardown` came to.
pub fn teardown_outcome(output: &Output) -> (r: Result<(), String>)
    ensures
        r is Ok <==> output.success || occurs(NO_SUCH_TABLE@, text_of(output.stderr@)),
        r is Err ==> r->Err_0@ == error_text("delete table"@, text_of(output.stderr@)),
{
    let stderr: String = stderr_of(output);
    judge_teardown(output.success, stderr.as_str())
}

// ---------------------------------------------------------------------------
// Listing the bans
// ---------------------------------------------------------------------------

/// The addresses in a listing, whose words stand between commas, braces and white
/// space.
pub open spec fn listed(text: Seq<char>) -> Seq<Address> {
    addresses_among(split(text, Separator::Listing.pred()))
}

/// The addresses in the listings of the sets; a set that could not be listed has
/// none.
pub open spec fn banned_in(outputs: Seq<Output>) -> Seq<Address>
    decreases outputs.len(),
{
    if outputs.len() == 0 {
        Seq::<Address>::empty()
    } else {
        let front = banned_in(outputs.drop_last());
        if outputs.last().success {
            front + listed(text_of(outputs.last().stdout@))
        } else {
            front
        }
    }
}

/// Lists the set `set` of the table.
pub open spec fn list_command(set: Seq<char>) -> Command {
    Command {
        program: "nft"@,
        args: seq!["list"@, "set"@, "inet"@, "vortexwall"@, set],
        stdin: None,
    }
}

fn list_set(set: &str) -> (r: Invocation)
    ensures
        r@ == list_command(set@),
{
    let args: Vec<&str> = vec!["list", "set", "inet", "vortexwall", set];
    assert(strs(args@) =~= seq!["list"@, "set"@, "inet"@, "vortexwall"@, set@]);
    Invocation::new("nft", &args)
}

/// What lists the bans: the IPv4 set, then the IPv6 set.
pub fn list_commands() -> (r: Vec<Invocation>)
    ensures
        r@.len() == 2,
        r@[0]@ == list_command("blackhole"@),
        r@[1]@ == list_command("blackhole6"@),
{
    vec![list_set("blackhole"), list_set("blackhole6")]
}

/// The addresses in the text of a listing.
pub fn parse_listing(text: &str) -> (r: Vec<IpAddr>)
    ensures
        addresses(r@) == listed(text@),
{
    let chars: Vec<char> = chars_of(text);
    let tokens: Vec<Vec<char>> = Separator::Listing.split(&chars);
    let mut ips: Vec<IpAddr> = Vec::new();
    let mut i: usize = 0;
    let ghost all = views(tokens@);
    assert(addresses(ips@) =~= addresses_among(all.take(0)));
    while i < tokens.len()
        invariant
            i <= tokens.len(),
            all == views(tokens@),
            addresses(ips@) == addresses_among(all.take(i as int)),
        decreases tokens.len() - i,
    {
        assert(all.take(i as int + 1).drop_last() =~= all.take(i as int));
        assert(all.take(i as int + 1).last() == tokens@[i as int]@);
        let ghost before = ips@;
        match IpAddr::from_chars(&tokens[i]) {
            Some(ip) => {
                ips.push(ip);
                assert(addresses(ips@) =~= addresses(before).push(ip@));
            },
            None => {},
        }
        i += 1;
    }
    assert(all.take(all.len() as int) =~= all);
    ips
}

/// Every address that is banned now, given what listing the sets came to. A set
/// that could not be listed was not set up yet, and counts as empty.
pub fn list_banned(outputs: &Vec<Output>) -> (r: Vec<IpAddr>)
    ensures
        addresses(r@) == banned_in(outputs@),
{
    let mut ips: Vec<IpAddr> = Vec::new();
    let mut i: usize = 0;
    assert(addresses(ips@) =~= banned_in(outputs@.take(0)));
    while i < outputs.len()
        invariant
            i <= outputs.len(),
            addresses(ips@) == banned_in(outputs@.take(i as int)),
        decreases outputs.len() - i,
    {
        assert(outputs@.take(i as int + 1).drop_last() =~= outputs@.take(i as int));
        if outputs[i].success {
            let text: String = lossy_text(&outputs[i].stdout);
            let mut more: Vec<IpAddr> = parse_listing(text.as_str());
            let ghost before = ips@;
            let ghost added = more@;
            ips.append(&mut more);
            assert(addresses(ips@) =~= addresses(before) + addresses(added));
        }
        i += 1;
    }
    assert(outputs@.take(outputs@.len() as int) =~= outputs@);
    ips
}

} // verus!
