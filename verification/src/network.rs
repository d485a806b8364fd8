//! Network-connectivity heuristics: the security assessment over the
//! probe results, and the parsing of interface listings.  Advisory
//! only; nothing here is security-enforcing.

use vstd::prelude::*;

use crate::strutil::chars_contain;
use crate::strutil::chars_have_prefix;
use crate::strutil::contains_seq;
use crate::strutil::has_prefix;
use crate::strutil::lower_of;
use crate::strutil::prefix_to_sep;
use crate::strutil::split_on;
use crate::strutil::split_on_char;
use crate::strutil::split_whitespace_chars;
use crate::strutil::split_ws;
use crate::strutil::str_chars;
use crate::strutil::str_to_lowercase;
use crate::strutil::str_to_uppercase;
use crate::strutil::trim_chars;
use crate::strutil::trim_of;
use crate::strutil::upper_of;
use crate::numbers::all_dec_digits;
use crate::numbers::dec_val;
use crate::numbers::parse_u64_dec;

verus! {

/// The advisory status handed to the caller.
pub struct NetworkStatus {
    pub is_connected: bool,
    pub warning_message: Option<String>,
}

/// The connection assessment over the three probe results: the machine
/// counts as unsafely connected when an HTTP probe got through, or when
/// a DNS probe got through while a real network interface is up.
pub open spec fn network_unsafe(dns_working: bool, http_working: bool, has_real_interfaces: bool)
    -> bool {
    http_working || (dns_working && has_real_interfaces)
}

/// Combines the probe results into the connection assessment.
pub fn assess_network_security(
    dns_working: bool,
    http_working: bool,
    has_real_interfaces: bool,
) -> (r: bool)
    ensures
        r == network_unsafe(dns_working, http_working, has_real_interfaces),
{
    if dns_working && http_working {
        true
    } else if http_working && !has_real_interfaces {
        true
    } else if dns_working && has_real_interfaces {
        true
    } else if dns_working && !has_real_interfaces {
        false
    } else if !dns_working && !http_working && !has_real_interfaces {
        false
    } else if !dns_working && !http_working {
        false
    } else {
        true
    }
}

/// The fixed warning shown while a connection is up.
pub fn get_network_warning_message() -> (r: String)
    ensures
        r@
            == "\u{26a0}\u{fe0f} Network Connection Detected\n\nFor maximum security, please disconnect from the internet before performing encryption or decryption operations. This prevents any potential data leakage during the cryptographic process.\n\nSteps to disconnect:\n1. Turn off Wi-Fi in System Preferences\n2. Unplug Ethernet cable (if connected)\n3. Disable mobile hotspot connections\n\nYou can reconnect after completing your encryption/decryption tasks."@,
{
    "\u{26a0}\u{fe0f} Network Connection Detected\n\nFor maximum security, please disconnect from the internet before performing encryption or decryption operations. This prevents any potential data leakage during the cryptographic process.\n\nSteps to disconnect:\n1. Turn off Wi-Fi in System Preferences\n2. Unplug Ethernet cable (if connected)\n3. Disable mobile hotspot connections\n\nYou can reconnect after completing your encryption/decryption tasks.".to_owned()
}

/// A virtual or system interface name, ignored by the scan.
pub open spec fn virtual_iface(name: Seq<char>) -> bool {
    let n = lower_of(name);
    ||| has_prefix(n, "utun"@)
    ||| has_prefix(n, "awdl"@)
    ||| has_prefix(n, "llw"@)
    ||| has_prefix(n, "bridge"@)
    ||| has_prefix(n, "vnic"@)
    ||| has_prefix(n, "vmnet"@)
    ||| has_prefix(n, "vboxnet"@)
    ||| has_prefix(n, "lo"@)
    ||| n == "lo0"@
}

/// Whether an interface name is a virtual or system interface.
pub fn is_virtual_interface(interface_name: &str) -> (r: bool)
    ensures
        r == virtual_iface(interface_name@),
{
    let name = str_to_lowercase(interface_name);
    let chars = str_chars(name.as_str());
    let r = starts_with_lit(&chars, "utun") || starts_with_lit(&chars, "awdl")
        || starts_with_lit(&chars, "llw") || starts_with_lit(&chars, "bridge")
        || starts_with_lit(&chars, "vnic") || starts_with_lit(&chars, "vmnet")
        || starts_with_lit(&chars, "vboxnet") || starts_with_lit(&chars, "lo")
        || crate::strutil::str_eq(name.as_str(), "lo0");
    r
}

/// Prefix test against a literal.
fn starts_with_lit(chars: &Vec<char>, p: &str) -> (r: bool)
    ensures
        r == has_prefix(chars@, p@),
{
    let pv = str_chars(p);
    proof {
        assert(chars@.subrange(0, chars@.len() as int) =~= chars@);
    }
    chars_have_prefix(chars, 0, chars.len(), &pv)
}

/// A real address: not loopback and not link-local.  The private
/// ranges are named first; any other non-loopback, non-link-local
/// address also counts.
pub open spec fn real_ip(ip: Seq<char>) -> bool {
    ||| has_prefix(ip, "10."@)
    ||| has_prefix(ip, "192.168."@)
    ||| (has_prefix(ip, "172."@) && second_octet_private(ip))
    ||| (!has_prefix(ip, "127."@) && !has_prefix(ip, "169.254."@))
}

/// The second dot-separated field parses as a number between 16 and 31.
pub open spec fn second_octet_private(ip: Seq<char>) -> bool {
    let fields = split_on(ip, '.');
    &&& fields.len() >= 2
    &&& fields[1].len() > 0
    &&& all_dec_digits(fields[1])
    &&& dec_val(fields[1]) <= 255
    &&& 16 <= dec_val(fields[1]) <= 31
}

/// Whether an address counts as a real network connection.
pub fn is_real_ip_address(ip: &str) -> (r: bool)
    ensures
        r == real_ip(ip@),
{
    let chars = str_chars(ip);
    if starts_with_lit(&chars, "10.") {
        return true;
    }
    if starts_with_lit(&chars, "192.168.") {
        return true;
    }
    if starts_with_lit(&chars, "172.") {
        let fields = split_on_char(&chars, '.');
        if fields.len() >= 2 {
            let second = str_chars(fields[1].as_str());
            match parse_u64_dec(&second, 0, second.len()) {
                Some(v) => {
                    proof {
                        assert(second@.subrange(0, second@.len() as int) =~= second@);
                    }
                    if v <= 255 && 16 <= v && v <= 31 {
                        return true;
                    }
                },
                None => {
                },
            }
        }
    }
    proof {
        if second_octet_private(ip@) {
            assert(split_on(ip@, '.')[1].subrange(0, split_on(ip@, '.')[1].len() as int)
                =~= split_on(ip@, '.')[1]);
        }
    }
    !starts_with_lit(&chars, "127.") && !starts_with_lit(&chars, "169.254.")
}

/// An interface header line: no leading blank and a colon somewhere.
pub open spec fn iface_header(l: Seq<char>) -> bool {
    l.len() > 0 && l[0] != ' ' && l[0] != '\t' && contains_seq(l, seq![':'])
}

/// The interface name a header declares: the text before the colon,
/// lowercased.
pub open spec fn header_name(l: Seq<char>) -> Seq<char> {
    lower_of(prefix_to_sep(l, ':'))
}

/// Whether a header marks its interface UP and RUNNING.
pub open spec fn header_up(l: Seq<char>) -> bool {
    contains_seq(upper_of(l), "UP"@) && contains_seq(upper_of(l), "RUNNING"@)
}

/// An address line that counts: an `inet` entry whose address is real,
/// outside loopback and link-local, on a non-virtual interface.
pub open spec fn counted_inet(l: Seq<char>, name: Seq<char>) -> bool {
    let t = trim_of(l);
    &&& has_prefix(t, "inet "@)
    &&& split_ws(t).len() >= 2
    &&& ({
        let ip = prefix_to_sep(split_ws(t)[1], '/');
        &&& ip != "127.0.0.1"@
        &&& !has_prefix(ip, "169.254."@)
        &&& !virtual_iface(name)
        &&& real_ip(ip)
    })
}

/// The scan over the listing's lines: a header switches the current
/// interface and its up state, and a counted address line on an up
/// interface ends the scan.
pub open spec fn ifconfig_scan(lines: Seq<Seq<char>>, name: Seq<char>, up: bool) -> bool
    decreases lines.len(),
{
    if lines.len() == 0 {
        false
    } else {
        let l = lines[0];
        let name1 = if iface_header(l) {
            header_name(l)
        } else {
            name
        };
        let up1 = if iface_header(l) {
            header_up(l)
        } else {
            up
        };
        if up1 && counted_inet(l, name1) {
            true
        } else {
            ifconfig_scan(lines.drop_first(), name1, up1)
        }
    }
}

/// Scans an interface listing for a real, up, non-virtual interface
/// with a real address.
pub fn parse_ifconfig_output(output: &str) -> (r: bool)
    ensures
        r == ifconfig_scan(split_on(output@, '\n'), Seq::empty(), false),
{
    let chars = str_chars(output);
    let lines = split_on_char(&chars, '\n');
    let ghost ls = split_on(output@, '\n');
    let n = lines.len();
    let mut current_interface = String::new();
    let mut interface_is_up = false;
    let mut i: usize = 0;
    proof {
        assert(ls.skip(0) =~= ls);
    }
    while i < n
        invariant
            i <= n,
            n == lines@.len(),
            ls == split_on(output@, '\n'),
            ls == lines@.map_values(|l: String| l@),
            ifconfig_scan(ls, Seq::empty(), false) == ifconfig_scan(
                ls.skip(i as int),
                current_interface@,
                interface_is_up,
            ),
        decreases n - i,
    {
        let ghost pre_name = current_interface@;
        let ghost pre_up = interface_is_up;
        let line = &lines[i];
        let lchars = str_chars(line.as_str());
        proof {
            assert(ls[i as int] == lchars@);
        }
        let mut is_hdr = false;
        if lchars.len() > 0 && !(lchars[0] == ' ') && !(lchars[0] == '\t') {
            let colon = str_chars(":");
            proof {
                reveal_strlit(":");
                assert(":"@ =~= seq![':']);
                assert(lchars@.subrange(0, lchars@.len() as int) =~= lchars@);
            }
            is_hdr = chars_contain(&lchars, 0, lchars.len(), &colon);
        }
        proof {
            assert(is_hdr == iface_header(lchars@));
        }
        if is_hdr {
            let fields = split_on_char(&lchars, ':');
            proof {
                crate::kdf::lemma_split_on_len(lchars@, ':');
            }
            let name = str_to_lowercase(fields[0].as_str());
            let upper = str_to_uppercase(line.as_str());
            let uchars = str_chars(upper.as_str());
            let up_lit = str_chars("UP");
            let running_lit = str_chars("RUNNING");
            proof {
                assert(uchars@.subrange(0, uchars@.len() as int) =~= uchars@);
            }
            let has_up = chars_contain(&uchars, 0, uchars.len(), &up_lit);
            let has_running = chars_contain(&uchars, 0, uchars.len(), &running_lit);
            proof {
                crate::strutil::lemma_prefix_to_sep(lchars@, ':');
                assert(split_on(lchars@, ':')[0] == prefix_to_sep(lchars@, ':'));
                assert(name@ == header_name(lchars@));
            }
            current_interface = name;
            interface_is_up = has_up && has_running;
            proof {
                assert(interface_is_up == header_up(lchars@));
            }
        }
        // The address check runs with the freshly updated state.
        let counted = inet_line_counts(line.as_str(), current_interface.as_str());
        proof {
            let name1 = if iface_header(ls[i as int]) {
                header_name(ls[i as int])
            } else {
                pre_name
            };
            let up1 = if iface_header(ls[i as int]) {
                header_up(ls[i as int])
            } else {
                pre_up
            };
            assert(current_interface@ == name1);
            assert(interface_is_up == up1);
            assert(ls.skip(i as int)[0] == ls[i as int]);
            assert(ls.skip(i as int).drop_first() =~= ls.skip(i as int + 1));
        }
        if interface_is_up && counted {
            proof {
                assert(ifconfig_scan(ls.skip(i as int), pre_name, pre_up));
            }
            return true;
        }
        i = i + 1;
    }
    proof {
        assert(ls.skip(n as int).len() == 0);
    }
    false
}

/// Whether one line is a counted address entry for the interface.
fn inet_line_counts(line: &str, name: &str) -> (r: bool)
    ensures
        r == counted_inet(line@, name@),
{
    let chars = str_chars(line);
    let (a, b) = trim_chars(&chars, 0, chars.len());
    let ghost t = trim_of(line@);
    proof {
        assert(chars@.subrange(0, chars@.len() as int) =~= chars@);
        assert(chars@.subrange(a as int, b as int) == t);
    }
    let inet_lit = str_chars("inet ");
    let has_inet = chars_have_prefix(&chars, a, b, &inet_lit);
    if !has_inet {
        return false;
    }
    let tstr = crate::strutil::chars_to_string(&chars, a, b);
    let tchars = str_chars(tstr.as_str());
    let toks = split_whitespace_chars(&tchars);
    proof {
        assert(tchars@ == t);
        assert(toks@.map_values(|w: String| w@) == split_ws(t));
        assert(toks@.len() == split_ws(t).len());
    }
    if toks.len() < 2 {
        return false;
    }
    let ipchars = str_chars(toks[1].as_str());
    let ipfields = split_on_char(&ipchars, '/');
    proof {
        crate::kdf::lemma_split_on_len(ipchars@, '/');
        crate::strutil::lemma_prefix_to_sep(ipchars@, '/');
        assert(split_on(ipchars@, '/')[0] == prefix_to_sep(ipchars@, '/'));
        assert(split_ws(t)[1] == ipchars@);
    }
    let ip = &ipfields[0];
    if crate::strutil::str_eq(ip.as_str(), "127.0.0.1") {
        return false;
    }
    let ipc = str_chars(ip.as_str());
    if starts_with_lit(&ipc, "169.254.") {
        return false;
    }
    if is_virtual_interface(name) {
        return false;
    }
    is_real_ip_address(ip.as_str())
}


/// A line that names the default route's interface.
pub open spec fn route_iface_line(l: Seq<char>) -> bool {
    has_prefix(trim_of(l), "interface:"@) && split_on(l, ':').len() >= 2
}

/// The first line at or after `i` naming the route's interface, or the
/// line count when there is none.
pub open spec fn first_route_iface(lines: Seq<Seq<char>>, i: int) -> int
    decreases lines.len() - i,
{
    if i < 0 || i >= lines.len() {
        lines.len() as int
    } else if route_iface_line(lines[i]) {
        i
    } else {
        first_route_iface(lines, i + 1)
    }
}

/// What the default-route listing shows: a gateway and an interface
/// are both named, and the first named interface is not virtual.
pub open spec fn route_output_connected(output: Seq<char>) -> bool {
    let lines = split_on(output, '\n');
    let k = first_route_iface(lines, 0);
    &&& contains_seq(output, "gateway:"@)
    &&& contains_seq(output, "interface:"@)
    &&& k < lines.len()
    &&& !virtual_iface(trim_of(split_on(lines[k], ':')[1]))
}

/// Reads a default-route listing: connected exactly when a gateway and
/// a real, non-virtual interface are both named.
pub fn parse_route_output(output: &str) -> (r: bool)
    ensures
        r == route_output_connected(output@),
{
    let chars = str_chars(output);
    proof {
        assert(chars@.subrange(0, chars@.len() as int) =~= chars@);
    }
    let gateway_lit = str_chars("gateway:");
    let iface_lit = str_chars("interface:");
    let has_gateway = chars_contain(&chars, 0, chars.len(), &gateway_lit);
    let has_interface = chars_contain(&chars, 0, chars.len(), &iface_lit);
    if !(has_gateway && has_interface) {
        return false;
    }
    let lines = split_on_char(&chars, '\n');
    let ghost ls = split_on(output@, '\n');
    let n = lines.len();
    let mut i: usize = 0;
    while i < n
        invariant
            i <= n,
            n == lines@.len(),
            ls == split_on(output@, '\n'),
            ls == lines@.map_values(|l: String| l@),
            contains_seq(output@, "gateway:"@),
            contains_seq(output@, "interface:"@),
            iface_lit@ == "interface:"@,
            first_route_iface(ls, 0) == first_route_iface(ls, i as int),
        decreases n - i,
    {
        let lchars = str_chars(lines[i].as_str());
        proof {
            assert(ls[i as int] == lchars@);
            assert(lchars@.subrange(0, lchars@.len() as int) =~= lchars@);
        }
        let (a, b) = trim_chars(&lchars, 0, lchars.len());
        let mut is_iface = chars_have_prefix(&lchars, a, b, &iface_lit);
        proof {
            assert(lchars@.subrange(a as int, b as int) == trim_of(lchars@));
        }
        let fields = split_on_char(&lchars, ':');
        proof {
            assert(fields@.map_values(|f: String| f@) == split_on(lchars@, ':'));
            assert(fields@.len() == fields@.map_values(|f: String| f@).len());
        }
        if is_iface && fields.len() < 2 {
            is_iface = false;
        }
        if is_iface {
            proof {
                assert(route_iface_line(ls[i as int]));
                assert(first_route_iface(ls, i as int) == i);
            }
            let fchars = str_chars(fields[1].as_str());
            let (fa, fb) = trim_chars(&fchars, 0, fchars.len());
            let iface = crate::strutil::chars_to_string(&fchars, fa, fb);
            proof {
                assert(fchars@.subrange(0, fchars@.len() as int) =~= fchars@);
                assert(iface@ == trim_of(split_on(ls[i as int], ':')[1]));
            }
            return !is_virtual_interface(iface.as_str());
        }
        proof {
            assert(!route_iface_line(ls[i as int]));
            assert(first_route_iface(ls, i as int) == first_route_iface(ls, i as int + 1));
        }
        i = i + 1;
    }
    proof {
        assert(first_route_iface(ls, n as int) == n);
    }
    false
}

} // verus!
