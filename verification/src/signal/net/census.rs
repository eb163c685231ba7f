//! Who is here: the population of the band, keyed by address.

use crate::text;
use vstd::prelude::*;

verus! {

/// One transmitter, as the census knows it.
#[derive(Clone, Copy, Debug, PartialEq, Eq)]
pub struct Device {
    /// The address, as transmitted.
    pub address: [u8; 6],
    /// Packets attributed to it.
    pub packets: u64,
    /// The strongest it has been heard, in micro-decibels.
    pub best_rssi: i64,
    /// When it was last heard.
    pub last_seen_ms: u64,
}

/// The two digits of each byte, with colons between them.
pub open spec fn address_form(bytes: Seq<u8>) -> Seq<char>
    decreases bytes.len(),
{
    if bytes.len() == 0 {
        Seq::empty()
    } else if bytes.len() == 1 {
        text::hex_byte(bytes[0])
    } else {
        address_form(bytes.drop_last()).push(':') + text::hex_byte(bytes.last())
    }
}

/// An address as the number it spells: the order of the numbers is the order of
/// the bytes, first byte first.
pub open spec fn address_number(bytes: Seq<u8>) -> int
    decreases bytes.len(),
{
    if bytes.len() == 0 {
        0
    } else {
        256 * address_number(bytes.drop_last()) + bytes.last()
    }
}

impl Device {
    /// The address in the usual form, such as `a4:83:e7:1c:09:be`.
    pub fn address_text(&self) -> (t: String)
        ensures
            t@ == address_form(self.address@),
    {
        let mut t: Vec<char> = Vec::new();
        let mut i: usize = 0;
        while i < 6
            invariant
                i <= 6,
                t@ == address_form(self.address@.take(i as int)),
            decreases 6 - i,
        {
            let ghost head = self.address@.take(i as int);
            if i > 0 {
                t.push(':');
            }
            let digits = text::hex_text(self.address[i]);
            text::push_all(&mut t, digits.as_slice());
            proof {
                let more = self.address@.take(i + 1);
                assert(more.drop_last() == head);
                assert(t@ == address_form(more));
            }
            i += 1;
        }
        assert(self.address@.take(6) == self.address@);
        text::from_chars(t.as_slice())
    }
}

/// What the table can be ordered by, in the order the columns are drawn. The
/// names are the titles of the columns.
pub fn sort_keys() -> (keys: [&'static str; 4])
    ensures
        keys@ == seq!["ADDRESS", "SEEN", "PKTS", "RSSI"],
{
    let keys = ["ADDRESS", "SEEN", "PKTS", "RSSI"];
    assert(keys@ == seq!["ADDRESS", "SEEN", "PKTS", "RSSI"]);
    keys
}

/// What a column compares: how long ago, how many packets, how strong. The
/// address column compares nothing but the address.
pub open spec fn column_value(d: Device, sort: usize, now_ms: u64) -> int {
    if sort == 1 {
        if d.last_seen_ms <= now_ms {
            now_ms - d.last_seen_ms
        } else {
            0
        }
    } else if sort == 2 {
        d.packets as int
    } else if sort == 3 {
        d.best_rssi as int
    } else {
        0
    }
}

/// Where a device belongs: by its column, then by its address.
pub open spec fn place(d: Device, sort: usize, descending: bool, now_ms: u64) -> int {
    let value = column_value(d, sort, now_ms);
    0x1_0000_0000_0000 * (if descending {
        -value
    } else {
        value
    }) + address_number(d.address@)
}

/// An arrangement of positions by ascending place, those of one place in the
/// order they were in.
pub open spec fn stands_by(places: Seq<int>, p: Seq<int>) -> bool {
    &&& p.len() == places.len()
    &&& p.no_duplicates()
    &&& forall|i: int| 0 <= i < p.len() ==> 0 <= #[trigger] p[i] < places.len()
    &&& forall|i: int, j: int|
        0 <= i < j < p.len() ==> places[#[trigger] p[i]] < places[#[trigger] p[j]] || (
        places[p[i]] == places[p[j]] && p[i] < p[j])
}

/// Rows rearranged.
pub open spec fn rearranged(rows: Seq<Device>, p: Seq<int>) -> Seq<Device> {
    Seq::new(p.len(), |i: int| rows[p[i]])
}

/// The places of rows.
pub open spec fn places_of(rows: Seq<Device>, sort: usize, descending: bool, now_ms: u64) -> Seq<
    int,
> {
    Seq::new(rows.len(), |i: int| place(rows[i], sort, descending, now_ms))
}

/// Whether `out` is the rows in the order asked for.
pub open spec fn ordered(
    rows: Seq<Device>,
    out: Seq<Device>,
    sort: usize,
    descending: bool,
    now_ms: u64,
) -> bool {
    &&& out.to_multiset() == rows.to_multiset()
    &&& exists|p: Seq<int>|
        #![trigger rearranged(rows, p)]
        stands_by(places_of(rows, sort, descending, now_ms), p) && out == rearranged(rows, p)
}

/// The number an address spells.
fn number_of(address: &[u8; 6]) -> (n: u64)
    ensures
        n == address_number(address@),
        n < 0x1_0000_0000_0000,
{
    let mut n: u64 = 0;
    let mut i: usize = 0;
    let mut limit: u64 = 1;
    while i < 6
        invariant
            i <= 6,
            n == address_number(address@.take(i as int)),
            n < limit,
            limit == if i == 0 {
                1u64
            } else if i == 1 {
                0x100
            } else if i == 2 {
                0x1_0000
            } else if i == 3 {
                0x100_0000
            } else if i == 4 {
                0x1_0000_0000
            } else if i == 5 {
                0x100_0000_0000
            } else {
                0x1_0000_0000_0000
            },
        decreases 6 - i,
    {
        assert(address@.take(i + 1).drop_last() == address@.take(i as int));
        n = 256 * n + address[i] as u64;
        limit = 256 * limit;
        i += 1;
    }
    assert(address@.take(6) == address@);
    n
}

/// Where a device belongs.
fn place_of(d: &Device, sort: usize, descending: bool, now_ms: u64) -> (n: i128)
    ensures
        n == place(*d, sort, descending, now_ms),
{
    let value: i128 = if sort == 1 {
        if d.last_seen_ms <= now_ms {
            (now_ms - d.last_seen_ms) as i128
        } else {
            0
        }
    } else if sort == 2 {
        d.packets as i128
    } else if sort == 3 {
        d.best_rssi as i128
    } else {
        0
    };
    let signed: i128 = if descending {
        0 - value
    } else {
        value
    };
    0x1_0000_0000_0000 * signed + number_of(&d.address) as i128
}

/// Puts devices in the order the panel asked for. Devices that the column cannot
/// tell apart stand by address.
pub fn order(devices: &mut Vec<Device>, sort: usize, descending: bool, now_ms: u64)
    ensures
        ordered(old(devices)@, final(devices)@, sort, descending, now_ms),
{
    let ghost rows = devices@;
    let ghost places = places_of(rows, sort, descending, now_ms);
    let mut out: Vec<Device> = Vec::new();
    let ghost mut p: Seq<int> = Seq::empty();
    let mut k: usize = 0;
    assert(rows.take(0) == out@);
    while k < devices.len()
        invariant
            k <= devices@.len(),
            devices@ == rows,
            places == places_of(rows, sort, descending, now_ms),
            out@.len() == k,
            stands_by(places.take(k as int), p),
            out@ == rearranged(rows, p),
            out@.to_multiset() == rows.take(k as int).to_multiset(),
        decreases devices@.len() - k,
    {
        let d = devices[k];
        let here: i128 = place_of(&d, sort, descending, now_ms);
        let mut at: usize = out.len();
        while at > 0 && here < place_of(&out[at - 1], sort, descending, now_ms)
            invariant
                at <= k < rows.len(),
                out@.len() == k,
                p.len() == k,
                d == rows[k as int],
                here == place(d, sort, descending, now_ms),
                places == places_of(rows, sort, descending, now_ms),
                stands_by(places.take(k as int), p),
                out@ == rearranged(rows, p),
                forall|j: int| at <= j < k ==> here < places[#[trigger] p[j]],
            decreases at,
        {
            at -= 1;
        }
        let ghost before = p;
        let ghost held = out@;
        out.insert(at, d);
        proof {
            let q = before.insert(at as int, k as int);
            p = q;
            let more = places.take(k + 1);
            let less = places.take(k as int);
            if at > 0 {
                assert(held[at - 1] == rows[before[at - 1]]);
                assert(places[before[at - 1]] <= here);
            }
            assert forall|i: int| 0 <= i < q.len() implies 0 <= #[trigger] q[i] < more.len() by {
                if i < at {
                    assert(q[i] == before[i]);
                } else if i > at {
                    assert(q[i] == before[i - 1]);
                }
            }
            assert(q.no_duplicates()) by {
                assert forall|i: int, j: int| 0 <= i < q.len() && 0 <= j < q.len() && i != j implies q[i]
                    != q[j] by {
                    let x = if i < at {
                        i
                    } else {
                        i - 1
                    };
                    let y = if j < at {
                        j
                    } else {
                        j - 1
                    };
                    if i != at {
                        assert(q[i] == before[x]);
                    }
                    if j != at {
                        assert(q[j] == before[y]);
                    }
                }
            }
            assert forall|i: int, j: int| 0 <= i < j < q.len() implies more[#[trigger] q[i]]
                < more[#[trigger] q[j]] || (more[q[i]] == more[q[j]] && q[i] < q[j]) by {
                if j < at {
                    assert(q[i] == before[i] && q[j] == before[j]);
                    assert(less[before[i]] == more[q[i]]);
                    assert(less[before[j]] == more[q[j]]);
                } else if j == at {
                    assert(q[i] == before[i]);
                    assert(less[before[i]] == more[q[i]]);
                    if i < at - 1 {
                        assert(less[before[at - 1]] == places[before[at - 1]]);
                        assert(less[before[i]] <= less[before[at - 1]]);
                    }
                } else if i < at {
                    assert(q[i] == before[i] && q[j] == before[j - 1]);
                    assert(less[before[i]] == more[q[i]]);
                    assert(less[before[j - 1]] == more[q[j]]);
                } else if i == at {
                    assert(q[j] == before[j - 1]);
                    assert(here < places[before[j - 1]]);
                } else {
                    assert(q[i] == before[i - 1] && q[j] == before[j - 1]);
                    assert(less[before[i - 1]] == more[q[i]]);
                    assert(less[before[j - 1]] == more[q[j]]);
                }
            }
            assert(out@ == rearranged(rows, q)) by {
                assert forall|i: int| 0 <= i < q.len() implies out@[i] == rows[q[i]] by {
                    if i < at {
                        assert(q[i] == before[i]);
                    } else if i > at {
                        assert(q[i] == before[i - 1]);
                    }
                }
            }
            vstd::seq_lib::to_multiset_insert(held, at as int, d);
            assert(rows.take(k + 1) == rows.take(k as int).push(d));
            rows.take(k as int).to_multiset_ensures();
        }
        k += 1;
    }
    assert(places.take(k as int) == places);
    assert(rows.take(k as int) == rows);
    assert(stands_by(places, p) && out@ == rearranged(rows, p));
    *devices = out;
}

/// Whether the rows stand by strictly ascending place.
spec fn strictly_placed(s: Seq<Device>, sort: usize, descending: bool, now_ms: u64) -> bool {
    forall|i: int, j: int|
        0 <= i < j < s.len() ==> place(#[trigger] s[i], sort, descending, now_ms) < place(
            #[trigger] s[j],
            sort,
            descending,
            now_ms,
        )
}

/// Rows with distinct places have one order.
proof fn lemma_one_order(
    x: Seq<Device>,
    y: Seq<Device>,
    sort: usize,
    descending: bool,
    now_ms: u64,
)
    requires
        x.to_multiset() == y.to_multiset(),
        strictly_placed(x, sort, descending, now_ms),
        strictly_placed(y, sort, descending, now_ms),
    ensures
        x == y,
    decreases x.len(),
{
    vstd::seq_lib::to_multiset_len(x);
    vstd::seq_lib::to_multiset_len(y);
    if x.len() > 0 {
        vstd::seq_lib::to_multiset_contains(y, x[0]);
        vstd::seq_lib::to_multiset_contains(x, x[0]);
        vstd::seq_lib::to_multiset_contains(x, y[0]);
        vstd::seq_lib::to_multiset_contains(y, y[0]);
        assert(x.contains(x[0]));
        assert(y.contains(y[0]));
        let j = choose|j: int| 0 <= j < y.len() && y[j] == x[0];
        let i = choose|i: int| 0 <= i < x.len() && x[i] == y[0];
        assert(x[0] == y[0]);
        vstd::seq_lib::to_multiset_remove(x, 0);
        vstd::seq_lib::to_multiset_remove(y, 0);
        let u = x.remove(0);
        let v = y.remove(0);
        assert(strictly_placed(u, sort, descending, now_ms)) by {
            assert forall|a: int, b: int| 0 <= a < b < u.len() implies place(
                #[trigger] u[a],
                sort,
                descending,
                now_ms,
            ) < place(#[trigger] u[b], sort, descending, now_ms) by {
                assert(u[a] == x[a + 1] && u[b] == x[b + 1]);
            }
        }
        assert(strictly_placed(v, sort, descending, now_ms)) by {
            assert forall|a: int, b: int| 0 <= a < b < v.len() implies place(
                #[trigger] v[a],
                sort,
                descending,
                now_ms,
            ) < place(#[trigger] v[b], sort, descending, now_ms) by {
                assert(v[a] == y[a + 1] && v[b] == y[b + 1]);
            }
        }
        lemma_one_order(u, v, sort, descending, now_ms);
        assert(x == seq![x[0]] + u);
        assert(y == seq![y[0]] + v);
    }
    assert(x =~= y);
}

/// The numbers of six bytes leave room for a column above them.
proof fn lemma_number_bound(bytes: Seq<u8>)
    requires
        bytes.len() == 6,
    ensures
        0 <= address_number(bytes) < 0x1_0000_0000_0000,
{
    reveal_with_fuel(address_number, 7);
}

/// Places in order stand strictly, where no two devices have one address.
proof fn lemma_placed(
    rows: Seq<Device>,
    out: Seq<Device>,
    sort: usize,
    descending: bool,
    now_ms: u64,
)
    requires
        ordered(rows, out, sort, descending, now_ms),
        forall|i: int, j: int|
            0 <= i < j < rows.len() ==> address_number(#[trigger] rows[i].address@)
                != address_number(#[trigger] rows[j].address@),
    ensures
        strictly_placed(out, sort, descending, now_ms),
{
    let places = places_of(rows, sort, descending, now_ms);
    let p = choose|p: Seq<int>|
        #![trigger rearranged(rows, p)]
        stands_by(places, p) && out == rearranged(rows, p);
    assert forall|i: int, j: int| 0 <= i < j < out.len() implies place(
        #[trigger] out[i],
        sort,
        descending,
        now_ms,
    ) < place(#[trigger] out[j], sort, descending, now_ms) by {
        assert(out[i] == rows[p[i]] && out[j] == rows[p[j]]);
        let a = rows[p[i]];
        let b = rows[p[j]];
        assert(p[i] != p[j]);
        lemma_number_bound(a.address@);
        lemma_number_bound(b.address@);
        assert(address_number(rows[p[i]].address@) != address_number(rows[p[j]].address@));
        assert(places[p[i]] != places[p[j]]);
    }
}

/// A tie does not shuffle: the rows come out in one order whatever order they
/// went in, because the address breaks every tie.
pub proof fn law_order_forgets_arrangement(
    a: Seq<Device>,
    b: Seq<Device>,
    x: Seq<Device>,
    y: Seq<Device>,
    sort: usize,
    descending: bool,
    now_ms: u64,
)
    requires
        a.to_multiset() == b.to_multiset(),
        forall|i: int, j: int|
            0 <= i < j < a.len() ==> address_number(#[trigger] a[i].address@) != address_number(
                #[trigger] a[j].address@,
            ),
        forall|i: int, j: int|
            0 <= i < j < b.len() ==> address_number(#[trigger] b[i].address@) != address_number(
                #[trigger] b[j].address@,
            ),
        ordered(a, x, sort, descending, now_ms),
        ordered(b, y, sort, descending, now_ms),
    ensures
        x == y,
{
    lemma_placed(a, x, sort, descending, now_ms);
    lemma_placed(b, y, sort, descending, now_ms);
    lemma_one_order(x, y, sort, descending, now_ms);
}

/// What an order compares of two devices, in words: how long ago they were heard, how
/// many packets they sent, or how strong they were.
pub open spec fn comes_before(a: Device, b: Device, sort: usize, now_ms: u64) -> bool {
    if sort == 1 {
        // Heard later, unless neither was heard in the past.
        a.last_seen_ms > b.last_seen_ms && b.last_seen_ms < now_ms
    } else if sort == 2 {
        a.packets < b.packets
    } else if sort == 3 {
        a.best_rssi < b.best_rssi
    } else {
        false
    }
}

/// Numbers of addresses that begin alike differ as their next bytes do.
proof fn lemma_first_difference(a: Seq<u8>, b: Seq<u8>, k: int)
    requires
        a.len() == b.len(),
        0 <= k < a.len(),
        a.take(k) == b.take(k),
        a[k] < b[k],
    ensures
        address_number(a) < address_number(b),
    decreases a.len(),
{
    let x = a.drop_last();
    let y = b.drop_last();
    if k == a.len() - 1 {
        assert(x == a.take(k) && y == b.take(k));
    } else {
        assert(x.take(k) == a.take(k) && y.take(k) == b.take(k));
        lemma_first_difference(x, y, k);
    }
}

/// The table stands in the order asked for: no device stands before one that comes before
/// it by the column, or after it where the order is turned round. Of two that the column
/// cannot tell apart, the one whose address is lower at the first byte that differs stands
/// first, whichever way round.
pub proof fn law_the_table_stands_in_order(
    rows: Seq<Device>,
    out: Seq<Device>,
    sort: usize,
    descending: bool,
    now_ms: u64,
    i: int,
    j: int,
    k: int,
)
    requires
        ordered(rows, out, sort, descending, now_ms),
        0 <= i < j < out.len(),
        0 <= k < 6,
    ensures
        !descending ==> !comes_before(out[j], out[i], sort, now_ms),
        descending ==> !comes_before(out[i], out[j], sort, now_ms),
        !comes_before(out[i], out[j], sort, now_ms) && !comes_before(out[j], out[i], sort, now_ms)
            && out[i].address@.take(k) == out[j].address@.take(k) ==> out[i].address@[k]
            <= out[j].address@[k],
        out.to_multiset() == rows.to_multiset(),
{
    let places = places_of(rows, sort, descending, now_ms);
    let p = choose|p: Seq<int>|
        #![trigger rearranged(rows, p)]
        stands_by(places, p) && out == rearranged(rows, p);
    let a = out[i];
    let b = out[j];
    assert(a == rows[p[i]] && b == rows[p[j]]);
    assert(places[p[i]] <= places[p[j]]);
    lemma_number_bound(a.address@);
    lemma_number_bound(b.address@);
    if a.address@.take(k) == b.address@.take(k) && b.address@[k] < a.address@[k] {
        lemma_first_difference(b.address@, a.address@, k);
    }
}

/// An address is written byte by byte in two digits each, with a colon between every two
/// of them.
pub proof fn law_an_address_is_written_byte_by_byte(bytes: Seq<u8>, i: int)
    requires
        0 <= i < bytes.len(),
    ensures
        address_form(bytes).len() == 3 * bytes.len() - 1,
        address_form(bytes).subrange(3 * i, 3 * i + 2) == text::hex_byte(bytes[i]),
        i + 1 < bytes.len() ==> address_form(bytes)[3 * i + 2] == ':',
    decreases bytes.len(),
{
    text::law_a_byte_is_two_digits(bytes.last());
    let form = address_form(bytes);
    let n = bytes.len() as int;
    if n > 1 {
        let head = address_form(bytes.drop_last());
        law_an_address_is_written_byte_by_byte(bytes.drop_last(), if i < n - 1 {
            i
        } else {
            0
        });
        if i < n - 1 {
            assert(form.subrange(3 * i, 3 * i + 2) == head.subrange(3 * i, 3 * i + 2));
        } else {
            assert(form.subrange(3 * i, 3 * i + 2) == text::hex_byte(bytes[i]));
        }
    } else {
        assert(form.subrange(0, 2) == form);
    }
}

} // verus!
