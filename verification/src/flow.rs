//! The state that is kept for one flow, and how each packet changes it.

use vstd::prelude::*;
use crate::cursor::ByteCursor;
use crate::http::{extract_phpid, phpid};
use crate::tls::{extract_tls_sni, tls_sni};

verus! {

/// The layer-4 protocol number of TCP.
pub const L4_TCP: u8 = 6;

/// What the aggregator reads of a packet.
pub struct Packet<'a> {
    /// The length of the packet on the wire.
    pub packet_raw_len: u32,
    /// The layer-4 protocol number.
    pub l4_type: u8,
    /// The captured layer-7 payload; empty if the packet carries none.
    pub l7_payload: &'a [u8],
}

/// A packet as the contracts see it.
pub struct PacketModel {
    pub raw_len: nat,
    pub l4_type: u8,
    pub payload: Seq<u8>,
}

impl<'a> View for Packet<'a> {
    type V = PacketModel;

    open spec fn view(&self) -> PacketModel {
        PacketModel {
            raw_len: self.packet_raw_len as nat,
            l4_type: self.l4_type,
            payload: self.l7_payload@,
        }
    }
}

impl PacketModel {
    /// Whether the packet is searched: a TCP packet with a payload.
    pub open spec fn qualifies(self) -> bool {
        self.payload.len() > 0 && self.l4_type == L4_TCP
    }
}

/// A session cookie: where it came from and its value.
#[derive(Debug)]
pub struct CookieRecord {
    /// `true` if a response set the cookie, `false` if a request sent it.
    pub origin: bool,
    /// The session id.
    pub value: String,
}

impl View for CookieRecord {
    type V = (bool, Seq<char>);

    open spec fn view(&self) -> (bool, Seq<char>) {
        (self.origin, self.value@)
    }
}

impl CookieRecord {
    /// The origin as it is written out: 1 for a cookie that a response set,
    /// 0 for one that a request sent.
    pub fn flag(&self) -> (f: u8)
        ensures
            f == if self.origin {
                1u8
            } else {
                0u8
            },
    {
        if self.origin {
            1
        } else {
            0
        }
    }
}

/// The state of a flow as the contracts see it.
pub struct FlowModel {
    /// The sum of the on-wire lengths of the packets seen.
    pub bytes: nat,
    /// The distinct session cookies seen.
    pub cookies: Set<(bool, Seq<char>)>,
    /// The server name; empty as long as none was found.
    pub sni: Seq<char>,
}

impl FlowModel {
    /// The state of a flow that has seen no packet.
    pub open spec fn fresh() -> FlowModel {
        FlowModel { bytes: 0, cookies: Set::empty(), sni: Seq::empty() }
    }

    /// The state after the packet `p`. Every packet counts towards the
    /// bytes. A packet that qualifies adds its session cookie, if it holds
    /// one, and gives the server name, if it holds one and none was found
    /// before.
    pub open spec fn after_packet(self, p: PacketModel) -> FlowModel {
        FlowModel {
            bytes: self.bytes + p.raw_len,
            cookies: if p.qualifies() && phpid(p.payload, 0).0 is Some {
                self.cookies.insert(phpid(p.payload, 0).0->Some_0)
            } else {
                self.cookies
            },
            sni: if p.qualifies() && self.sni.len() == 0 && tls_sni(p.payload, 0).0 is Some {
                tls_sni(p.payload, 0).0->Some_0
            } else {
                self.sni
            },
        }
    }

    /// The state after the end of the flow: the cookies are handed out, the
    /// rest stays.
    pub open spec fn after_end(self) -> FlowModel {
        FlowModel { cookies: Set::empty(), ..self }
    }
}

/// The first server name of a flow stays: once a packet has given the flow
/// a server name, no later packet changes it.
pub proof fn lemma_first_server_name_stays(m: FlowModel, first: PacketModel, later: PacketModel)
    requires
        m.after_packet(first).sni.len() > 0,
    ensures
        m.after_packet(first).after_packet(later).sni == m.after_packet(first).sni,
{
}

/// A cookie counts once: a packet that is seen a second time leaves the
/// cookies as they were after the first time.
pub proof fn lemma_cookie_counts_once(m: FlowModel, p: PacketModel)
    ensures
        m.after_packet(p).after_packet(p).cookies == m.after_packet(p).cookies,
{
    assert(m.after_packet(p).after_packet(p).cookies =~= m.after_packet(p).cookies);
}

/// A packet only adds to what a flow holds: the byte count does not fall,
/// every cookie seen before is still there, and a server name found before
/// stays. A packet that is not searched, or in which neither search finds
/// anything, changes the byte count alone.
pub proof fn lemma_packet_only_adds(m: FlowModel, p: PacketModel)
    ensures
        m.after_packet(p).bytes >= m.bytes,
        m.cookies.subset_of(m.after_packet(p).cookies),
        m.sni.len() > 0 ==> m.after_packet(p).sni == m.sni,
        !p.qualifies() || (phpid(p.payload, 0).0 is None && tls_sni(p.payload, 0).0 is None)
            ==> m.after_packet(p) == (FlowModel { bytes: m.bytes + p.raw_len, ..m }),
{
}

/// What a flow has gathered when it ends.
pub struct FlowSummary {
    /// The sum of the on-wire lengths of the packets of the flow.
    pub byte_count: u64,
    /// The distinct session cookies of the flow, in no particular order.
    pub php_ids: Vec<CookieRecord>,
    /// The server name of the flow; empty if none was found.
    pub tls_sni: String,
}

impl FlowSummary {
    /// The cookies of the summary as a sequence of pairs.
    pub open spec fn records(self) -> Seq<(bool, Seq<char>)> {
        self.php_ids@.map_values(|r: CookieRecord| r@)
    }

    /// The number of cookies, as the 32-bit count that precedes them when
    /// they are written out.
    pub fn count(&self) -> (c: u32)
        ensures
            c == self.php_ids@.len() as u32,
            self.php_ids@.len() <= u32::MAX ==> c == self.php_ids@.len(),
    {
        #[verifier::truncate]
        (self.php_ids.len() as u32)
    }
}

/// The state of one flow: the bytes it has carried, the session cookies and
/// the server name found in it.
pub struct FlowState {
    byte_count: u64,
    php_ids: Vec<CookieRecord>,
    tls_sni: String,
}

impl View for FlowState {
    type V = FlowModel;

    closed spec fn view(&self) -> FlowModel {
        FlowModel {
            bytes: self.byte_count as nat,
            cookies: self.records().to_set(),
            sni: self.tls_sni@,
        }
    }
}

impl FlowState {
    /// The cookies held, in the order in which they were found.
    pub closed spec fn records(self) -> Seq<(bool, Seq<char>)> {
        self.php_ids@.map_values(|r: CookieRecord| r@)
    }

    /// No cookie is held twice.
    #[verifier::type_invariant]
    pub open spec fn distinct(self) -> bool {
        self.records().no_duplicates()
    }

    /// The state of a flow that has seen no packet.
    pub fn new() -> (state: FlowState)
        ensures
            state@ == FlowModel::fresh(),
    {
        let state = FlowState { byte_count: 0, php_ids: Vec::new(), tls_sni: String::new() };
        assert(state.records() =~= Seq::empty());
        assert(state.records().to_set() =~= Set::empty());
        state
    }

    /// The sum of the on-wire lengths of the packets seen.
    pub fn byte_count(&self) -> (n: u64)
        ensures
            n == self@.bytes,
    {
        self.byte_count
    }

    /// The server name; empty as long as none was found.
    pub fn tls_sni(&self) -> (name: &str)
        ensures
            name@ == self@.sni,
    {
        self.tls_sni.as_str()
    }

    /// The number of distinct session cookies seen.
    pub fn cookie_count(&self) -> (n: usize)
        ensures
            n == self@.cookies.len(),
            self@.cookies.finite(),
    {
        proof {
            use_type_invariant(self);
            self.records().unique_seq_to_set();
            vstd::seq_lib::seq_to_set_is_finite(self.records());
        }
        self.php_ids.len()
    }

    /// Whether the cookie with this origin and value was seen.
    pub fn has_cookie(&self, origin: bool, value: &str) -> (found: bool)
        ensures
            found == self@.cookies.contains((origin, value@)),
    {
        let wanted = value.to_owned();
        let mut i: usize = 0;
        while i < self.php_ids.len()
            invariant
                i <= self.php_ids@.len(),
                wanted@ == value@,
                forall|j: int| 0 <= j < i ==> self.records()[j] != (origin, value@),
            decreases self.php_ids@.len() - i,
        {
            if self.php_ids[i].origin == origin && self.php_ids[i].value == wanted {
                assert(self.records()[i as int] == (origin, value@));
                return true;
            }
            i = i + 1;
        }
        false
    }

    /// Adds the cookie with this origin and value unless it is held already.
    /// Returns whether it was added.
    pub fn insert_cookie(&mut self, origin: bool, value: &str) -> (added: bool)
        ensures
            final(self)@ == (FlowModel {
                cookies: old(self)@.cookies.insert((origin, value@)),
                ..old(self)@
            }),
            added == !old(self)@.cookies.contains((origin, value@)),
    {
        if self.has_cookie(origin, value) {
            assert(self@.cookies.insert((origin, value@)) =~= self@.cookies);
            return false;
        }
        let record = CookieRecord { origin, value: value.to_owned() };
        let ghost held = self.records();
        proof {
            use_type_invariant(&*self);
            assert(self.php_ids@.push(record).map_values(|r: CookieRecord| r@) =~= held.push(
                record@,
            ));
            assert(!held.contains(record@));
            held.lemma_push_to_set_commute(record@);
        }
        let mut php_ids: Vec<CookieRecord> = Vec::new();
        assert(php_ids@.map_values(|r: CookieRecord| r@) =~= Seq::empty());
        core::mem::swap(&mut self.php_ids, &mut php_ids);
        php_ids.push(record);
        self.php_ids = php_ids;
        true
    }

    /// Takes in one packet of the flow. The on-wire length of every packet
    /// is added to the byte count. The payload of a TCP packet, if it has
    /// one, is searched for a session cookie, which joins those seen before;
    /// as long as the flow has no server name, it is searched for one too.
    /// Both searches start at the first byte of the payload.
    pub fn claim_l4_info(&mut self, packet: &Packet)
        requires
            old(self)@.bytes + packet@.raw_len <= u64::MAX,
        ensures
            final(self)@ == old(self)@.after_packet(packet@),
    {
        proof {
            use_type_invariant(&*self);
        }
        self.byte_count = self.byte_count + packet.packet_raw_len as u64;
        if packet.l7_payload.len() > 0 && packet.l4_type == L4_TCP {
            let mut cursor = ByteCursor::new(packet.l7_payload);
            if let Some((origin, value)) = extract_phpid(&mut cursor) {
                self.insert_cookie(origin, value);
            }
            cursor.rewind(0).unwrap();
            if self.tls_sni.as_str().is_empty() {
                if let Some(name) = extract_tls_sni(&mut cursor) {
                    proof {
                        use_type_invariant(&*self);
                    }
                    self.tls_sni = name.to_owned();
                }
            }
        }
    }

    /// Ends the flow: hands out what it has gathered and forgets the
    /// cookies. The cookies come out without repetition.
    pub fn on_flow_terminate(&mut self) -> (summary: FlowSummary)
        ensures
            final(self)@ == old(self)@.after_end(),
            summary.byte_count == old(self)@.bytes,
            summary.tls_sni@ == old(self)@.sni,
            summary.records().no_duplicates(),
            summary.records().to_set() == old(self)@.cookies,
            summary.php_ids@.len() == old(self)@.cookies.len(),
    {
        proof {
            use_type_invariant(&*self);
            self.records().unique_seq_to_set();
        }
        let mut php_ids: Vec<CookieRecord> = Vec::new();
        assert(php_ids@.map_values(|r: CookieRecord| r@) =~= Seq::empty());
        core::mem::swap(&mut self.php_ids, &mut php_ids);
        assert(self.records().to_set() =~= Set::empty());
        FlowSummary { byte_count: self.byte_count, php_ids, tls_sni: self.tls_sni.clone() }
    }
}

} // verus!
