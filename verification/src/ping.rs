//! Pinging an address with the ping program of the system.

use vstd::prelude::*;

use crate::addr::{ip_text, IpAddr};
use crate::text::{push_decimal, spells, texts};

verus! {

/// A timeout in milliseconds as whole seconds, rounded up, and at least one.
pub open spec fn whole_seconds(timeout_ms: int) -> int {
    let rounded = (timeout_ms + 999) / 1000;
    if rounded < 1 {
        1
    } else {
        rounded
    }
}

/// The options that ask for one echo request with a timeout: in milliseconds on
/// Windows, in seconds elsewhere.
pub open spec fn ping_options(timeout_ms: u64, windows: bool) -> Seq<Seq<char>> {
    if windows {
        seq!["-n"@, "1"@, "-w"@, crate::text::decimal(timeout_ms as nat)]
    } else {
        seq![
            "-c"@,
            "1"@,
            "-W"@,
            crate::text::decimal(whole_seconds(timeout_ms as int) as nat),
        ]
    }
}

/// The arguments of the ping program for `ip`.
pub open spec fn ping_command(ip: IpAddr, timeout_ms: u64, windows: bool) -> Seq<Seq<char>> {
    let options = ping_options(timeout_ms, windows);
    if ip is V4 {
        options.push(ip_text(ip))
    } else {
        (seq!["-6"@] + options).push(ip_text(ip))
    }
}

/// The arguments of the ping program for one echo request to `ip`.
pub fn ping_arguments(ip: IpAddr, timeout_ms: u64, windows: bool) -> (r: Vec<String>)
    ensures
        texts(r@) == ping_command(ip, timeout_ms, windows),
{
    let mut args: Vec<String> = Vec::new();
    if !ip.is_ipv4() {
        args.push("-6".to_owned());
    }
    let mut limit: String = String::new();
    if windows {
        args.push("-n".to_owned());
        args.push("1".to_owned());
        args.push("-w".to_owned());
        push_decimal(&mut limit, timeout_ms as u128);
        assert(limit@ =~= crate::text::decimal(timeout_ms as nat));
    } else {
        let mut seconds: u64 = timeout_ms / 1000;
        if timeout_ms % 1000 != 0 {
            seconds = seconds + 1;
        }
        if seconds < 1 {
            seconds = 1;
        }
        assert(seconds == whole_seconds(timeout_ms as int));
        args.push("-c".to_owned());
        args.push("1".to_owned());
        args.push("-W".to_owned());
        push_decimal(&mut limit, seconds as u128);
        assert(limit@ =~= crate::text::decimal(seconds as nat));
    }
    args.push(limit);
    args.push(ip.to_text());
    assert(texts(args@) =~= ping_command(ip, timeout_ms, windows));
    args
}

/// What a run of the ping program says: whether there was a reply, and after how
/// many milliseconds. `success` tells that the program ran and reported one.
pub fn ping_outcome(success: bool, elapsed_ms: u128) -> (r: (bool, Option<u128>))
    ensures
        r.0 == success,
        r.1 == if success {
            Some(elapsed_ms)
        } else {
            None
        },
{
    if success {
        (true, Some(elapsed_ms))
    } else {
        (false, None)
    }
}

/// The ping program is given exactly six arguments for an IPv6 address, `-6`
/// first, and five for an IPv4 address. The last one is the address. The three
/// before it ask for one request and end with the limit: on Windows a numeral
/// whose value is the timeout, elsewhere a numeral whose value is the least whole
/// number of seconds from one on that covers the timeout.
pub proof fn ping_waits_as_long_as_asked(
    ip: IpAddr,
    timeout_ms: u64,
    windows: bool,
    args: Vec<String>,
)
    requires
        call_ensures(ping_arguments, (ip, timeout_ms, windows), args),
    ensures
        ip is V4 ==> args@.len() == 5,
        ip is V6 ==> args@.len() == 6 && args@[0]@ == "-6"@,
        args@[args@.len() - 1]@ == ip_text(ip),
        args@[args@.len() - 4]@ == "1"@,
        windows ==> {
            &&& args@[args@.len() - 5]@ == "-n"@
            &&& args@[args@.len() - 3]@ == "-w"@
            &&& spells(args@[args@.len() - 2]@, timeout_ms as int)
        },
        !windows ==> {
            &&& args@[args@.len() - 5]@ == "-c"@
            &&& args@[args@.len() - 3]@ == "-W"@
            &&& exists|seconds: int|
                {
                    &&& #[trigger] spells(args@[args@.len() - 2]@, seconds)
                    &&& seconds >= 1
                    &&& 1000 * seconds >= timeout_ms
                    &&& seconds > 1 ==> 1000 * (seconds - 1) < timeout_ms
                }
        },
{
    let command = ping_command(ip, timeout_ms, windows);
    assert(texts(args@) == command);
    assert(args@.len() == command.len());
    assert forall|i: int| 0 <= i < args@.len() implies (#[trigger] args@[i])@ == command[i] by {
        assert(texts(args@)[i] == args@[i]@);
    }
    crate::text::decimal_spells(timeout_ms as nat);
    crate::text::decimal_spells(whole_seconds(timeout_ms as int) as nat);
    if !windows {
        assert(spells(args@[args@.len() - 2]@, whole_seconds(timeout_ms as int)));
    }
}

/// On Windows two different addresses or timeouts never give the same arguments;
/// elsewhere two addresses never do.
pub proof fn pings_are_told_apart(
    a: IpAddr,
    b: IpAddr,
    timeout_a: u64,
    timeout_b: u64,
    windows: bool,
    for_a: Vec<String>,
    for_b: Vec<String>,
)
    requires
        call_ensures(ping_arguments, (a, timeout_a, windows), for_a),
        call_ensures(ping_arguments, (b, timeout_b, windows), for_b),
        for_a@.len() == for_b@.len(),
        forall|i: int| 0 <= i < for_a@.len() ==> (#[trigger] for_a@[i])@ == for_b@[i]@,
    ensures
        a == b,
        windows ==> timeout_a == timeout_b,
{
    ping_waits_as_long_as_asked(a, timeout_a, windows, for_a);
    ping_waits_as_long_as_asked(b, timeout_b, windows, for_b);
    let n = for_a@.len();
    assert(for_a@[n - 1]@ == for_b@[n - 1]@);
    assert(for_a@[n - 2]@ == for_b@[n - 2]@);
    crate::notation::text_names_one_address(a, b);
}

/// A ping tells the time that it took exactly where there was a reply, and tells
/// it as it was measured.
pub proof fn a_reply_tells_its_time(success: bool, elapsed_ms: u128, r: (bool, Option<u128>))
    requires
        call_ensures(ping_outcome, (success, elapsed_ms), r),
    ensures
        r.0 <==> success,
        r.1 is Some <==> success,
        r.1 matches Some(ms) ==> ms == elapsed_ms,
{
}

} // verus!
