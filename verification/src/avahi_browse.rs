use crate::escape::{undot, undot_chars, unescape, unescape_chars};
use crate::ip::{spec_parse_ip, parse_ip_chars, IpAddr};
use crate::numbers::{all_dec_digits, dec_value, parse_dec_u32};
use crate::text::{chars_to_string, lemma_split_on_len, split_chars, split_on, str_to_chars};
use vstd::prelude::*;
use vstd::string::*;

verus! {

/// Why one announcement line could not be decoded.  Each variant carries the
/// offending character or field, so a caller can log it.
#[derive(Debug, Clone, PartialEq, Eq)]
pub enum PacketParseError {
    /// The leading mode character is not `+`, `=` or `-`.
    ModeParse(char),
    /// The address-family token is neither `IPv4` nor `IPv6`.
    IpTypeParse(String),
    /// A mandatory field is missing.
    NotEnoughArgs,
    /// The address field is not a numeric v4 or v6 address.
    AddrParse(String),
    /// The port field is not a decimal 16-bit number.
    IntParse(String),
    /// The hostname holds a `\DDD` escape whose code is above 255.
    EscapeParse(String),
}

/// Ghost image of a decode error, over character sequences.
pub ghost enum PacketParseErrorView {
    ModeParse(char),
    IpTypeParse(Seq<char>),
    NotEnoughArgs,
    AddrParse(Seq<char>),
    IntParse(Seq<char>),
    EscapeParse(Seq<char>),
}

impl View for PacketParseError {
    type V = PacketParseErrorView;

    open spec fn view(&self) -> PacketParseErrorView {
        match self {
            PacketParseError::ModeParse(c) => PacketParseErrorView::ModeParse(*c),
            PacketParseError::IpTypeParse(s) => PacketParseErrorView::IpTypeParse(s@),
            PacketParseError::NotEnoughArgs => PacketParseErrorView::NotEnoughArgs,
            PacketParseError::AddrParse(s) => PacketParseErrorView::AddrParse(s@),
            PacketParseError::IntParse(s) => PacketParseErrorView::IntParse(s@),
            PacketParseError::EscapeParse(s) => PacketParseErrorView::EscapeParse(s@),
        }
    }
}

/// The three modes an announcement line can open with.
#[derive(Debug, Clone, Copy, PartialEq, Eq, Structural)]
pub enum PacketMode {
    /// `+`: a service appeared.
    New,
    /// `=`: a service was resolved to an address and port.
    Resolved,
    /// `-`: a service went away.
    Exited,
}

/// The address family named in an announcement line.
#[derive(Debug, Clone, Copy, PartialEq, Eq, Structural)]
pub enum IpType {
    V4,
    V6,
}

/// Mode of the character `c`: `+`, `=` and `-` name the three modes, anything
/// else is an error.
pub open spec fn spec_parse_mode(c: char) -> Result<PacketMode, PacketParseErrorView> {
    if c == '+' {
        Ok(PacketMode::New)
    } else if c == '=' {
        Ok(PacketMode::Resolved)
    } else if c == '-' {
        Ok(PacketMode::Exited)
    } else {
        Err(PacketParseErrorView::ModeParse(c))
    }
}

/// Family of the token `s`: only the exact tokens `IPv4` and `IPv6` are
/// accepted.
pub open spec fn spec_parse_ip_type(s: Seq<char>) -> Result<IpType, PacketParseErrorView> {
    if s == "IPv4"@ {
        Ok(IpType::V4)
    } else if s == "IPv6"@ {
        Ok(IpType::V6)
    } else {
        Err(PacketParseErrorView::IpTypeParse(s))
    }
}

/// The port field: one to five decimal digits whose value fits 16 bits.
pub open spec fn spec_parse_port(s: Seq<char>) -> Option<u16> {
    if 1 <= s.len() <= 5 && all_dec_digits(s) && dec_value(s) <= 65535 {
        Some(dec_value(s) as u16)
    } else {
        None
    }
}

impl PacketMode {
    /// Decodes the mode character.
    pub fn try_from(c: char) -> (r: Result<PacketMode, PacketParseError>)
        ensures
            r matches Ok(m) ==> spec_parse_mode(c) == Ok::<PacketMode, PacketParseErrorView>(m),
            r matches Err(e) ==> spec_parse_mode(c) == Err::<PacketMode, PacketParseErrorView>(
                e@,
            ),
    {
        if c == '+' {
            Ok(PacketMode::New)
        } else if c == '=' {
            Ok(PacketMode::Resolved)
        } else if c == '-' {
            Ok(PacketMode::Exited)
        } else {
            Err(PacketParseError::ModeParse(c))
        }
    }
}

impl IpType {
    /// Decodes the address-family token.
    pub fn try_from(s: String) -> (r: Result<IpType, PacketParseError>)
        ensures
            r matches Ok(t) ==> spec_parse_ip_type(s@) == Ok::<IpType, PacketParseErrorView>(t),
            r matches Err(e) ==> spec_parse_ip_type(s@) == Err::<IpType, PacketParseErrorView>(
                e@,
            ),
    {
        if s == String::from_str("IPv4") {
            Ok(IpType::V4)
        } else if s == String::from_str("IPv6") {
            Ok(IpType::V6)
        } else {
            Err(PacketParseError::IpTypeParse(s))
        }
    }
}

/// Reads the port field.
fn parse_port_chars(v: &Vec<char>) -> (r: Option<u16>)
    ensures
        r == spec_parse_port(v@),
{
    match parse_dec_u32(v) {
        None => None,
        Some(n) => {
            if n <= 65535 {
                Some(n as u16)
            } else {
                None
            }
        },
    }
}

/// The common fields present in every announcement.
#[derive(Debug, Clone, PartialEq, Eq)]
pub struct MdnsPacketBase {
    /// The interface the packet was received on.
    pub interface_name: String,
    /// The internet protocol family of the packet.
    pub internet_protocol: IpType,
    /// The hostname, after escape decoding.
    pub hostname: String,
    /// The type of the service.
    pub service_type: String,
    /// The domain of the service.
    pub domain: String,
}

/// Ghost image of the common fields.
pub ghost struct MdnsPacketBaseView {
    pub interface_name: Seq<char>,
    pub internet_protocol: IpType,
    pub hostname: Seq<char>,
    pub service_type: Seq<char>,
    pub domain: Seq<char>,
}

impl View for MdnsPacketBase {
    type V = MdnsPacketBaseView;

    open spec fn view(&self) -> MdnsPacketBaseView {
        MdnsPacketBaseView {
            interface_name: self.interface_name@,
            internet_protocol: self.internet_protocol,
            hostname: self.hostname@,
            service_type: self.service_type@,
            domain: self.domain@,
        }
    }
}

/// The extra fields of a resolved announcement.
#[derive(Debug, Clone, PartialEq, Eq)]
pub struct Service {
    /// The name of the service.
    pub name: String,
    /// The mDNS hostname of the service.
    pub hostname: String,
    /// The address serving the service.
    pub ip: IpAddr,
    /// The port the service is listening on.
    pub port: u16,
    /// All further fields, kept verbatim.
    pub data: Vec<String>,
}

/// Ghost image of the extra fields of a resolved announcement.
pub ghost struct ServiceView {
    pub name: Seq<char>,
    pub hostname: Seq<char>,
    pub ip: IpAddr,
    pub port: u16,
    pub data: Seq<Seq<char>>,
}

impl View for Service {
    type V = ServiceView;

    open spec fn view(&self) -> ServiceView {
        ServiceView {
            name: self.name@,
            hostname: self.hostname@,
            ip: self.ip,
            port: self.port,
            data: self.data.deep_view(),
        }
    }
}

/// One decoded announcement line.
#[derive(Debug, Clone, PartialEq, Eq)]
pub enum MdnsPacket {
    New(MdnsPacketBase),
    Resolved { base: MdnsPacketBase, service: Service },
    Exited(MdnsPacketBase),
}

/// Ghost image of a decoded announcement line.
pub ghost enum MdnsPacketView {
    New(MdnsPacketBaseView),
    Resolved { base: MdnsPacketBaseView, service: ServiceView },
    Exited(MdnsPacketBaseView),
}

impl View for MdnsPacket {
    type V = MdnsPacketView;

    open spec fn view(&self) -> MdnsPacketView {
        match self {
            MdnsPacket::New(b) => MdnsPacketView::New(b@),
            MdnsPacket::Resolved { base, service } => MdnsPacketView::Resolved {
                base: base@,
                service: service@,
            },
            MdnsPacket::Exited(b) => MdnsPacketView::Exited(b@),
        }
    }
}

/// The decoded hostname field: `\.` pairs become dots, then `\DDD` escapes
/// become characters.
pub open spec fn spec_decode_hostname(f: Seq<char>) -> Option<Seq<char>> {
    unescape(undot(f))
}

/// One line of the discovery tool's parsable output, decoded: semicolon-
/// separated fields, a mode character, then interface, family, hostname,
/// service type and domain, and for resolved lines also the resolved
/// hostname, address, port, and any further fields verbatim.  Checks happen
/// in field order, so the error names the first field that is wrong.
pub open spec fn spec_parse_packet(s: Seq<char>) -> Result<
    MdnsPacketView,
    PacketParseErrorView,
> {
    let fields = split_on(s, ';');
    if fields.len() < 1 || fields[0].len() == 0 {
        Err(PacketParseErrorView::NotEnoughArgs)
    } else {
        match spec_parse_mode(fields[0][0]) {
            Err(e) => Err(e),
            Ok(mode) => {
                if fields.len() < 3 {
                    Err(PacketParseErrorView::NotEnoughArgs)
                } else {
                    match spec_parse_ip_type(fields[2]) {
                        Err(e) => Err(e),
                        Ok(proto) => {
                            if fields.len() < 4 {
                                Err(PacketParseErrorView::NotEnoughArgs)
                            } else {
                                match spec_decode_hostname(fields[3]) {
                                    None => Err(PacketParseErrorView::EscapeParse(fields[3])),
                                    Some(host) => {
                                        if fields.len() < 6 {
                                            Err(PacketParseErrorView::NotEnoughArgs)
                                        } else {
                                            let base = MdnsPacketBaseView {
                                                interface_name: fields[1],
                                                internet_protocol: proto,
                                                hostname: host,
                                                service_type: fields[4],
                                                domain: fields[5],
                                            };
                                            spec_parse_tail(fields, mode, base)
                                        }
                                    },
                                }
                            }
                        },
                    }
                }
            },
        }
    }
}

/// The mode-dependent tail of a line: nothing more for `New` and `Exited`,
/// the resolution fields for `Resolved`.
pub open spec fn spec_parse_tail(
    fields: Seq<Seq<char>>,
    mode: PacketMode,
    base: MdnsPacketBaseView,
) -> Result<MdnsPacketView, PacketParseErrorView> {
    match mode {
        PacketMode::New => Ok(MdnsPacketView::New(base)),
        PacketMode::Exited => Ok(MdnsPacketView::Exited(base)),
        PacketMode::Resolved => {
            if fields.len() < 8 {
                Err(PacketParseErrorView::NotEnoughArgs)
            } else {
                match spec_parse_ip(fields[7]) {
                    None => Err(PacketParseErrorView::AddrParse(fields[7])),
                    Some(ip) => {
                        if fields.len() < 9 {
                            Err(PacketParseErrorView::NotEnoughArgs)
                        } else {
                            match spec_parse_port(fields[8]) {
                                None => Err(PacketParseErrorView::IntParse(fields[8])),
                                Some(port) => Ok(
                                    MdnsPacketView::Resolved {
                                        base: base,
                                        service: ServiceView {
                                            name: base.service_type,
                                            hostname: fields[6],
                                            ip: ip,
                                            port: port,
                                            data: fields.skip(9),
                                        },
                                    },
                                ),
                            }
                        }
                    },
                }
            }
        },
    }
}

/// Ghost image of a whole decode outcome.
pub open spec fn packet_result_view(r: Result<MdnsPacket, PacketParseError>) -> Result<
    MdnsPacketView,
    PacketParseErrorView,
> {
    match r {
        Ok(p) => Ok(p@),
        Err(e) => Err(e@),
    }
}

/// Unwraps the next field of a line, reporting a missing one as the decode
/// error it is.
pub fn try_unwrap_arg<'a>(arg: Option<&'a str>) -> (r: Result<&'a str, PacketParseError>)
    ensures
        arg matches Some(s) ==> (r matches Ok(t) && t@ == s@),
        arg is None ==> (r matches Err(e) && e@ == PacketParseErrorView::NotEnoughArgs),
{
    match arg {
        Some(s) => Ok(s),
        None => Err(PacketParseError::NotEnoughArgs),
    }
}

/// Decodes every `\DDD` escape of `s`, failing exactly when an escape names
/// a code above 255.
pub fn parse_escaped_ascii(s: &str) -> (r: Result<String, PacketParseError>)
    ensures
        r matches Ok(t) ==> unescape(s@) == Some(t@),
        r matches Err(e) ==> (unescape(s@) is None && e@ == PacketParseErrorView::EscapeParse(s@)),
{
    let chars = str_to_chars(s);
    match unescape_chars(&chars) {
        Some(out) => Ok(chars_to_string(&out)),
        None => Err(PacketParseError::EscapeParse(String::from_str(s))),
    }
}

impl MdnsPacket {
    /// Decodes one announcement line, yielding exactly what the line grammar
    /// gives it: the packet on success, and the first field's error
    /// otherwise.
    pub fn try_from(s: String) -> (r: Result<MdnsPacket, PacketParseError>)
        ensures
            packet_result_view(r) == spec_parse_packet(s@),
    {
        let chars = str_to_chars(s.as_str());
        let fields = split_chars(&chars, ';');
        let ghost sfields = split_on(s@, ';');
        proof {
            lemma_split_on_len(s@, ';');
        }
        if fields[0].len() == 0 {
            return Err(PacketParseError::NotEnoughArgs);
        }
        let mode = match PacketMode::try_from(fields[0][0]) {
            Ok(m) => m,
            Err(e) => {
                return Err(e);
            },
        };
        if fields.len() < 3 {
            return Err(PacketParseError::NotEnoughArgs);
        }
        let interface_name = chars_to_string(&fields[1]);
        let internet_protocol = match IpType::try_from(chars_to_string(&fields[2])) {
            Ok(t) => t,
            Err(e) => {
                return Err(e);
            },
        };
        if fields.len() < 4 {
            return Err(PacketParseError::NotEnoughArgs);
        }
        let undotted = undot_chars(&fields[3]);
        let hostname = match unescape_chars(&undotted) {
            Some(h) => chars_to_string(&h),
            None => {
                return Err(PacketParseError::EscapeParse(chars_to_string(&fields[3])));
            },
        };
        if fields.len() < 6 {
            return Err(PacketParseError::NotEnoughArgs);
        }
        let service_type = chars_to_string(&fields[4]);
        let domain = chars_to_string(&fields[5]);
        let base = MdnsPacketBase {
            interface_name,
            internet_protocol,
            hostname,
            service_type: service_type.clone(),
            domain,
        };
        match mode {
            PacketMode::New => Ok(MdnsPacket::New(base)),
            PacketMode::Exited => Ok(MdnsPacket::Exited(base)),
            PacketMode::Resolved => {
                if fields.len() < 8 {
                    return Err(PacketParseError::NotEnoughArgs);
                }
                let ip = match parse_ip_chars(&fields[7]) {
                    Some(ip) => ip,
                    None => {
                        return Err(PacketParseError::AddrParse(chars_to_string(&fields[7])));
                    },
                };
                if fields.len() < 9 {
                    return Err(PacketParseError::NotEnoughArgs);
                }
                let port = match parse_port_chars(&fields[8]) {
                    Some(p) => p,
                    None => {
                        return Err(PacketParseError::IntParse(chars_to_string(&fields[8])));
                    },
                };
                let mut data: Vec<String> = Vec::new();
                let mut k: usize = 9;
                while k < fields.len()
                    invariant
                        9 <= k <= fields@.len(),
                        fields@.len() == sfields.len(),
                        forall|j: int|
                            0 <= j < fields@.len() ==> #[trigger] fields@[j]@ == sfields[j],
                        data@.len() == k - 9,
                        forall|j: int|
                            0 <= j < data@.len() ==> #[trigger] data@[j]@ == sfields[9 + j],
                    decreases fields@.len() - k,
                {
                    data.push(chars_to_string(&fields[k]));
                    k += 1;
                }
                let service = Service {
                    name: service_type,
                    hostname: chars_to_string(&fields[6]),
                    ip,
                    port,
                    data,
                };
                proof {
                    assert(service@.data =~~= sfields.skip(9));
                }
                Ok(MdnsPacket::Resolved { base, service })
            },
        }
    }
}

/// Ghost images of a run of packets.
pub open spec fn packet_views(ps: Seq<MdnsPacket>) -> Seq<MdnsPacketView> {
    ps.map_values(|p: MdnsPacket| p@)
}

/// Ghost images of a run of lines.
pub open spec fn line_views(ls: Seq<String>) -> Seq<Seq<char>> {
    ls.map_values(|l: String| l@)
}

/// Decode of a whole batch of lines: every packet in order, or the error of
/// the first line that does not decode.
pub open spec fn spec_parse_lines(ls: Seq<Seq<char>>) -> Result<
    Seq<MdnsPacketView>,
    PacketParseErrorView,
>
    decreases ls.len(),
{
    if ls.len() == 0 {
        Ok(Seq::empty())
    } else {
        match spec_parse_packet(ls[0]) {
            Err(e) => Err(e),
            Ok(p) => match spec_parse_lines(ls.skip(1)) {
                Err(e) => Err(e),
                Ok(ps) => Ok(seq![p] + ps),
            },
        }
    }
}

/// Decodes a whole batch of lines, all or nothing: a snapshot made from a
/// partial batch could name devices inconsistently, so the first bad line
/// fails the batch with its own error.
pub fn parse_packets(lines: &Vec<String>) -> (r: Result<Vec<MdnsPacket>, PacketParseError>)
    ensures
        r matches Ok(ps) ==> Ok::<Seq<MdnsPacketView>, PacketParseErrorView>(packet_views(ps@))
            == spec_parse_lines(line_views(lines@)),
        r matches Err(e) ==> Err::<Seq<MdnsPacketView>, PacketParseErrorView>(e@)
            == spec_parse_lines(line_views(lines@)),
{
    let ghost lv = line_views(lines@);
    let mut out: Vec<MdnsPacket> = Vec::new();
    let mut i: usize = 0;
    proof {
        assert(lv.skip(0) =~= lv);
        assert(packet_views(out@) =~= Seq::<MdnsPacketView>::empty());
        match spec_parse_lines(lv) {
            Ok(ps) => {
                assert(packet_views(out@) + ps =~= ps);
            },
            Err(_) => {},
        }
    }
    while i < lines.len()
        invariant
            i <= lines@.len(),
            lv == line_views(lines@),
            spec_parse_lines(lv) == (match spec_parse_lines(lv.skip(i as int)) {
                Ok(ps) => Ok::<Seq<MdnsPacketView>, PacketParseErrorView>(
                    packet_views(out@) + ps,
                ),
                Err(e) => Err::<Seq<MdnsPacketView>, PacketParseErrorView>(e),
            }),
        decreases lines@.len() - i,
    {
        let ghost rest = lv.skip(i as int);
        proof {
            assert(rest[0] == lines@[i as int]@);
            assert(rest.skip(1) =~= lv.skip(i as int + 1));
        }
        let line = lines[i].clone();
        match MdnsPacket::try_from(line) {
            Err(e) => {
                proof {
                    assert(spec_parse_lines(rest) == Err::<
                        Seq<MdnsPacketView>,
                        PacketParseErrorView,
                    >(e@));
                }
                return Err(e);
            },
            Ok(p) => {
                let ghost old_out = out@;
                out.push(p);
                proof {
                    assert(packet_views(out@) =~= packet_views(old_out) + seq![p@]);
                    match spec_parse_lines(lv.skip(i as int + 1)) {
                        Ok(ps) => {
                            assert(spec_parse_lines(rest) == Ok::<
                                Seq<MdnsPacketView>,
                                PacketParseErrorView,
                            >(seq![p@] + ps));
                            assert(packet_views(old_out) + (seq![p@] + ps) =~= packet_views(out@)
                                + ps);
                        },
                        Err(_) => {},
                    }
                }
            },
        }
        i += 1;
    }
    proof {
        assert(lv.skip(i as int) =~= Seq::<Seq<char>>::empty());
        match spec_parse_lines(lv) {
            Ok(ps) => {
                assert(packet_views(out@) + Seq::<MdnsPacketView>::empty() =~= packet_views(
                    out@,
                ));
            },
            Err(_) => {},
        }
    }
    Ok(out)
}

} // verus!
