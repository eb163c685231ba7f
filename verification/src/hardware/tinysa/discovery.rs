//! Finding analysers among the serial devices of the system.
//!
//! Every serial device belongs to a chain of enclosing devices, nearest first,
//! and an analyser is recognised by what one of them says of itself.

use crate::hardware::{DeviceKind, DeviceListing};
use crate::text;
use vstd::prelude::*;

verus! {

/// What a device says of itself, each attribute as the system reports it.
pub struct UsbAttributes {
    pub vendor: Option<String>,
    pub product_id: Option<String>,
    pub manufacturer: Option<String>,
    pub product: Option<String>,
}

/// A serial device and the devices that enclose it, nearest first.
pub struct SerialEntry {
    pub name: String,
    pub ancestors: Vec<UsbAttributes>,
}

/// An attribute without white space around it; one that is missing is empty.
pub open spec fn attribute(value: Option<String>) -> Seq<char> {
    match value {
        Some(s) => text::trimmed(s@),
        None => Seq::empty(),
    }
}

/// Whether an attribute is present and reads as the word, in any case.
pub open spec fn reads(value: Option<String>, word: Seq<char>) -> bool {
    value is Some && text::lower(attribute(value)) == text::lower(word)
}

/// The product name of a device that is an analyser.
pub open spec fn product_of(device: UsbAttributes) -> Option<Seq<char>> {
    let product = text::lower(attribute(device.product));
    if !reads(device.vendor, "0483"@) || !reads(device.product_id, "5740"@) {
        None
    } else if text::lower(attribute(device.manufacturer)) != text::lower("tinysa.org"@) && product
        != text::lower("tinysa"@) && product != text::lower("tinysa4"@) {
        None
    } else if attribute(device.product).len() == 0 {
        Some("tinySA"@)
    } else {
        Some(attribute(device.product))
    }
}

/// The product name of the nearest enclosing device that is an analyser.
pub open spec fn first_product(chain: Seq<UsbAttributes>) -> Option<Seq<char>>
    decreases chain.len(),
{
    if chain.len() == 0 {
        None
    } else if product_of(chain[0]) is Some {
        product_of(chain[0])
    } else {
        first_product(chain.drop_first())
    }
}

/// An attribute without white space around it.
fn attribute_text(value: &Option<String>) -> (out: Vec<char>)
    ensures
        out@ == attribute(*value),
{
    match value {
        Some(s) => {
            let chars = text::to_chars(s.as_str());
            text::trim(chars.as_slice())
        },
        None => {
            let out: Vec<char> = Vec::new();
            assert(out@ == Seq::<char>::empty());
            out
        },
    }
}

/// Whether two texts are the same but for the case of their ASCII letters.
fn same_folded(a: &[char], word: &str) -> (r: bool)
    ensures
        r == (text::lower(a@) == text::lower(word@)),
{
    let chars = text::to_chars(word);
    let left = text::to_lower(a);
    let right = text::to_lower(chars.as_slice());
    text::same(left.as_slice(), right.as_slice())
}

/// The product name of a device, where its attributes say it is an analyser.
pub fn matching_product(device: &UsbAttributes) -> (r: Option<String>)
    ensures
        match r {
            Some(name) => product_of(*device) == Some(name@),
            None => product_of(*device) is None,
        },
{
    let vendor = attribute_text(&device.vendor);
    let product_id = attribute_text(&device.product_id);
    if device.vendor.is_none() || device.product_id.is_none() || !same_folded(
        vendor.as_slice(),
        "0483",
    ) || !same_folded(product_id.as_slice(), "5740") {
        return None;
    }
    let manufacturer = attribute_text(&device.manufacturer);
    let product = attribute_text(&device.product);
    let known_manufacturer = same_folded(manufacturer.as_slice(), "tinysa.org");
    let known_product = same_folded(product.as_slice(), "tinysa") || same_folded(
        product.as_slice(),
        "tinysa4",
    );
    if !known_manufacturer && !known_product {
        return None;
    }
    if product.len() == 0 {
        Some("tinySA".to_string())
    } else {
        Some(text::from_chars(product.as_slice()))
    }
}

/// The product name a serial device goes by.
fn product_in_chain(chain: &[UsbAttributes]) -> (r: Option<String>)
    ensures
        match r {
            Some(name) => first_product(chain@) == Some(name@),
            None => first_product(chain@) is None,
        },
{
    let mut i: usize = 0;
    assert(chain@.skip(0) == chain@);
    while i < chain.len()
        invariant
            i <= chain@.len(),
            first_product(chain@) == first_product(chain@.skip(i as int)),
        decreases chain@.len() - i,
    {
        let ghost rest = chain@.skip(i as int);
        assert(rest[0] == chain@[i as int]);
        assert(rest.drop_first() == chain@.skip(i + 1));
        let found = matching_product(&chain[i]);
        if found.is_some() {
            return found;
        }
        i += 1;
    }
    assert(chain@.skip(i as int).len() == 0);
    None
}

/// Whether a text comes before another, or is the same, in the order of their characters.
pub open spec fn in_order(a: Seq<char>, b: Seq<char>) -> bool
    decreases a.len(),
{
    if a.len() == 0 {
        true
    } else if b.len() == 0 {
        false
    } else if a[0] != b[0] {
        a[0] < b[0]
    } else {
        in_order(a.drop_first(), b.drop_first())
    }
}

/// Of two texts one comes first.
proof fn lemma_order_total(a: Seq<char>, b: Seq<char>)
    ensures
        in_order(a, b) || in_order(b, a),
    decreases a.len(),
{
    if a.len() > 0 && b.len() > 0 && a[0] == b[0] {
        lemma_order_total(a.drop_first(), b.drop_first());
    }
}

/// The order carries over a text between two others.
proof fn lemma_order_transitive(a: Seq<char>, b: Seq<char>, c: Seq<char>)
    requires
        in_order(a, b),
        in_order(b, c),
    ensures
        in_order(a, c),
    decreases a.len(),
{
    if a.len() > 0 && b.len() > 0 && c.len() > 0 && a[0] == b[0] && b[0] == c[0] {
        lemma_order_transitive(a.drop_first(), b.drop_first(), c.drop_first());
    }
}

/// Equal beginnings leave the order to what follows.
proof fn lemma_order_skip(a: Seq<char>, b: Seq<char>, n: int)
    requires
        0 <= n <= a.len(),
        n <= b.len(),
        a.take(n) == b.take(n),
    ensures
        in_order(a, b) == in_order(a.skip(n), b.skip(n)),
    decreases n,
{
    if n == 0 {
        assert(a.skip(0) == a);
        assert(b.skip(0) == b);
    } else {
        assert(a[0] == a.take(n)[0]);
        assert(b[0] == b.take(n)[0]);
        let x = a.drop_first();
        let y = b.drop_first();
        assert(x.take(n - 1) == a.take(n).drop_first());
        assert(y.take(n - 1) == b.take(n).drop_first());
        lemma_order_skip(x, y, n - 1);
        assert(x.skip(n - 1) == a.skip(n));
        assert(y.skip(n - 1) == b.skip(n));
    }
}

/// Whether one text comes before another or is the same.
fn ordered(a: &str, b: &str) -> (r: bool)
    ensures
        r == in_order(a@, b@),
{
    let x = text::to_chars(a);
    let y = text::to_chars(b);
    let mut i: usize = 0;
    while i < x.len() && i < y.len() && x[i] == y[i]
        invariant
            i <= x@.len(),
            i <= y@.len(),
            x@.take(i as int) == y@.take(i as int),
        decreases x@.len() - i,
    {
        assert(x@.take(i + 1) == x@.take(i as int).push(x@[i as int]));
        assert(y@.take(i + 1) == y@.take(i as int).push(y@[i as int]));
        i += 1;
    }
    proof {
        lemma_order_skip(x@, y@, i as int);
    }
    if i == x.len() {
        true
    } else if i == y.len() {
        false
    } else {
        assert(x@.skip(i as int)[0] == x@[i as int]);
        assert(y@.skip(i as int)[0] == y@[i as int]);
        x[i] < y[i]
    }
}

/// An analyser that was found: the name of its serial device and its product name.
pub struct Found {
    pub name: String,
    pub product: String,
}

/// Whether the analysers stand in the order of their names.
pub open spec fn sorted(found: Seq<Found>) -> bool {
    forall|i: int, j: int|
        0 <= i < j < found.len() ==> in_order((#[trigger] found[i]).name@, (
        #[trigger] found[j]).name@)
}

/// Puts an analyser where its name belongs.
fn insert(found: &mut Vec<Found>, item: Found)
    requires
        sorted(old(found)@),
    ensures
        sorted(final(found)@),
        as_pairs(final(found)@).to_multiset() == as_pairs(old(found)@).to_multiset().insert(
            as_pair(item),
        ),
{
    let ghost before = found@;
    let ghost added = item;
    let mut at: usize = found.len();
    while at > 0 && !ordered(found[at - 1].name.as_str(), item.name.as_str())
        invariant
            at <= found@.len(),
            found@ == before,
            forall|j: int| at <= j < found@.len() ==> in_order(item.name@, (#[trigger] found@[j]).name@),
        decreases at,
    {
        proof {
            lemma_order_total(found@[at - 1].name@, item.name@);
        }
        at -= 1;
    }
    proof {
        assert forall|i: int| 0 <= i < at implies in_order(
            (#[trigger] before[i]).name@,
            item.name@,
        ) by {
            if i < at - 1 {
                lemma_order_transitive(before[i].name@, before[at - 1].name@, item.name@);
            }
        }
    }
    found.insert(at, item);
    proof {
        let pairs = as_pairs(before);
        assert(as_pairs(found@) == pairs.insert(at as int, as_pair(added)));
        vstd::seq_lib::to_multiset_insert(pairs, at as int, as_pair(added));
        assert forall|i: int, j: int| 0 <= i < j < found@.len() implies in_order(
            (#[trigger] found@[i]).name@,
            (#[trigger] found@[j]).name@,
        ) by {
            let a = if i < at {
                before[i]
            } else if i == at {
                added
            } else {
                before[i - 1]
            };
            let b = if j < at {
                before[j]
            } else if j == at {
                added
            } else {
                before[j - 1]
            };
            assert(found@[i] == a);
            assert(found@[j] == b);
        }
    }
}

/// Whether a serial device is one an analyser could be.
pub open spec fn is_candidate(name: Seq<char>) -> bool {
    text::occurs_at(name, "ttyACM"@, 0)
}

/// Whether a serial device is an analyser.
pub open spec fn is_analyser(entry: SerialEntry) -> bool {
    is_candidate(entry.name@) && first_product(entry.ancestors@) is Some
}

/// The analysers among the serial devices, as name and product, in the given order.
pub open spec fn analysers(entries: Seq<SerialEntry>) -> Seq<(Seq<char>, Seq<char>)>
    decreases entries.len(),
{
    if entries.len() == 0 {
        Seq::empty()
    } else {
        let head = analysers(entries.drop_last());
        if is_analyser(entries.last()) {
            head.push((entries.last().name@, first_product(entries.last().ancestors@)->Some_0))
        } else {
            head
        }
    }
}

/// A found analyser as name and product.
pub open spec fn as_pair(f: Found) -> (Seq<char>, Seq<char>) {
    (f.name@, f.product@)
}

/// The found analysers as names and products.
pub open spec fn as_pairs(found: Seq<Found>) -> Seq<(Seq<char>, Seq<char>)> {
    found.map_values(|f: Found| as_pair(f))
}

/// Whether a listing shows an analyser under the device directory.
pub open spec fn shows(
    listing: DeviceListing,
    index: int,
    pair: (Seq<char>, Seq<char>),
    dev_root: Seq<char>,
) -> bool {
    &&& listing.kind == DeviceKind::TinySa
    &&& listing.index == index
    &&& listing.label@ == pair.1 + " \u{b7} "@ + joined(dev_root, pair.0)
    &&& listing.serial is None
    &&& listing.args is None
    &&& listing.path matches Some(p) && p@ == joined(dev_root, pair.0)
    &&& listing.tiny_sa_input is None
}

/// A name inside a directory.
pub open spec fn joined(root: Seq<char>, name: Seq<char>) -> Seq<char> {
    if root.len() == 0 || root.last() == '/' {
        root + name
    } else {
        root.push('/') + name
    }
}

/// A name inside a directory.
fn join(root: &str, name: &str) -> (out: Vec<char>)
    ensures
        out@ == joined(root@, name@),
{
    let mut out = text::to_chars(root);
    if out.len() > 0 && out[out.len() - 1] != '/' {
        out.push('/');
    }
    text::push_str(&mut out, name);
    out
}

/// The analysers among the serial devices, ordered by name.
fn find(entries: &[SerialEntry]) -> (found: Vec<Found>)
    ensures
        sorted(found@),
        as_pairs(found@).to_multiset() == analysers(entries@).to_multiset(),
{
    let prefix = text::to_chars("ttyACM");
    let mut found: Vec<Found> = Vec::new();
    let mut i: usize = 0;
    assert(as_pairs(found@) == Seq::<(Seq<char>, Seq<char>)>::empty());
    assert(analysers(entries@.take(0)) == Seq::<(Seq<char>, Seq<char>)>::empty());
    while i < entries.len()
        invariant
            i <= entries@.len(),
            prefix@ == "ttyACM"@,
            sorted(found@),
            as_pairs(found@).to_multiset() == analysers(entries@.take(i as int)).to_multiset(),
        decreases entries@.len() - i,
    {
        let entry = &entries[i];
        assert(entries@.take(i + 1).drop_last() == entries@.take(i as int));
        let name = text::to_chars(entry.name.as_str());
        if text::stands_at(name.as_slice(), prefix.as_slice(), 0) {
            if let Some(product) = product_in_chain(entry.ancestors.as_slice()) {
                let item = Found { name: text::from_chars(name.as_slice()), product };
                proof {
                    let head = analysers(entries@.take(i as int));
                    head.to_multiset_ensures();
                    assert(analysers(entries@.take(i + 1)) == head.push(as_pair(item)));
                }
                insert(&mut found, item);
            }
        }
        i += 1;
    }
    assert(entries@.take(i as int) == entries@);
    found
}

/// Lists the analysers among the serial devices: those with the name of an
/// analyser's device and an enclosing device that says it is one, in the order
/// of their names.
pub fn list_entries(entries: &[SerialEntry], dev_root: &str) -> (out: Vec<DeviceListing>)
    ensures
        exists|pairs: Seq<(Seq<char>, Seq<char>)>|
            {
                &&& #[trigger] pairs.to_multiset() == analysers(entries@).to_multiset()
                &&& forall|i: int, j: int|
                    0 <= i < j < pairs.len() ==> in_order(
                        (#[trigger] pairs[i]).0,
                        (#[trigger] pairs[j]).0,
                    )
                &&& out@.len() == pairs.len()
                &&& forall|i: int|
                    0 <= i < pairs.len() ==> shows(#[trigger] out@[i], i, pairs[i], dev_root@)
            },
{
    let found = find(entries);
    let mut out: Vec<DeviceListing> = Vec::new();
    let ghost pairs = as_pairs(found@);
    let mut i: usize = 0;
    while i < found.len()
        invariant
            i <= found@.len(),
            pairs == as_pairs(found@),
            out@.len() == i,
            forall|k: int| 0 <= k < i ==> shows(#[trigger] out@[k], k, pairs[k], dev_root@),
        decreases found@.len() - i,
    {
        let path = join(dev_root, found[i].name.as_str());
        let mut label = text::to_chars(found[i].product.as_str());
        text::push_str(&mut label, " \u{b7} ");
        text::push_all(&mut label, path.as_slice());
        out.push(
            DeviceListing {
                kind: DeviceKind::TinySa,
                index: i,
                label: text::from_chars(label.as_slice()),
                serial: None,
                args: None,
                path: Some(text::from_chars(path.as_slice())),
                tiny_sa_input: None,
            },
        );
        assert(shows(out@[i as int], i as int, pairs[i as int], dev_root@));
        i += 1;
    }
    assert forall|a: int, b: int| 0 <= a < b < pairs.len() implies in_order(
        (#[trigger] pairs[a]).0,
        (#[trigger] pairs[b]).0,
    ) by {
        assert(pairs[a].0 == found@[a].name@);
        assert(pairs[b].0 == found@[b].name@);
    }
    assert(pairs.to_multiset() == analysers(entries@).to_multiset());
    out
}

/// The product of a serial device is that of the nearest enclosing device that is an
/// analyser.
pub proof fn law_the_nearest_analyser_names_the_device(chain: Seq<UsbAttributes>)
    ensures
        match first_product(chain) {
            Some(p) => exists|i: int|
                0 <= i < chain.len() && #[trigger] product_of(chain[i]) == Some(p) && forall|j: int|
                    0 <= j < i ==> #[trigger] product_of(chain[j]) is None,
            None => forall|j: int|
                0 <= j < chain.len() ==> #[trigger] product_of(chain[j]) is None,
        },
    decreases chain.len(),
{
    if chain.len() > 0 {
        if product_of(chain[0]) is Some {
            assert(product_of(chain[0]) == first_product(chain));
        } else {
            let rest = chain.drop_first();
            law_the_nearest_analyser_names_the_device(rest);
            if first_product(chain) is Some {
                let p = first_product(chain)->Some_0;
                let i = choose|i: int|
                    0 <= i < rest.len() && #[trigger] product_of(rest[i]) == Some(p) && forall|j: int|
                        0 <= j < i ==> #[trigger] product_of(rest[j]) is None;
                assert(rest[i] == chain[i + 1]);
                assert forall|j: int| 0 <= j < i + 1 implies #[trigger] product_of(
                    chain[j],
                ) is None by {
                    if j > 0 {
                        assert(product_of(rest[j - 1]) is None);
                        assert(rest[j - 1] == chain[j]);
                    }
                }
                assert(product_of(chain[i + 1]) == Some(p));
            } else {
                assert forall|j: int| 0 <= j < chain.len() implies #[trigger] product_of(
                    chain[j],
                ) is None by {
                    if j > 0 {
                        assert(product_of(rest[j - 1]) is None);
                        assert(rest[j - 1] == chain[j]);
                    }
                }
            }
        }
    }
}

/// Names stand in the order of their first characters that differ, and a name before one
/// that it begins.
pub proof fn law_names_stand_by_their_first_difference(a: Seq<char>, b: Seq<char>, n: int)
    requires
        0 <= n <= a.len(),
        n <= b.len(),
        a.take(n) == b.take(n),
    ensures
        n == a.len() ==> in_order(a, b),
        n == b.len() && n < a.len() ==> !in_order(a, b),
        n < a.len() && n < b.len() && a[n] != b[n] ==> in_order(a, b) == (a[n] < b[n]),
{
    lemma_order_skip(a, b, n);
    if n < a.len() {
        assert(a.skip(n)[0] == a[n]);
    }
    if n < b.len() {
        assert(b.skip(n)[0] == b[n]);
    }
}

/// A serial device is listed where its name begins as those of analysers do and a device
/// around it is one; and every such device is, once for each time that it is there.
pub proof fn law_every_analyser_is_listed(entries: Seq<SerialEntry>, i: int)
    requires
        0 <= i < entries.len(),
    ensures
        is_candidate(entries[i].name@) && first_product(entries[i].ancestors@) is Some
            ==> analysers(entries).contains(
            (entries[i].name@, first_product(entries[i].ancestors@)->Some_0),
        ),
        analysers(entries).len() <= entries.len(),
        forall|k: int|
            0 <= k < analysers(entries).len() ==> is_candidate((#[trigger] analysers(entries)[k]).0),
    decreases entries.len(),
{
    let head = entries.drop_last();
    let found = analysers(entries);
    let less = analysers(head);
    if i < head.len() {
        law_every_analyser_is_listed(head, i);
        if is_candidate(entries[i].name@) && first_product(entries[i].ancestors@) is Some {
            let pair = (entries[i].name@, first_product(entries[i].ancestors@)->Some_0);
            let k = choose|k: int| 0 <= k < less.len() && less[k] == pair;
            assert(found[k] == pair);
        }
    } else {
        if head.len() > 0 {
            law_every_analyser_is_listed(head, 0);
        }
        if is_analyser(entries.last()) {
            assert(found[found.len() - 1] == (
                entries[i].name@,
                first_product(entries[i].ancestors@)->Some_0,
            ));
        }
    }
    assert forall|k: int| 0 <= k < found.len() implies is_candidate((#[trigger] found[k]).0) by {
        if k < less.len() {
            assert(found[k] == less[k]);
            assert(is_candidate(less[k].0));
        }
    }
}

/// A name inside a directory follows it after one slash.
pub proof fn law_a_path_has_one_slash(root: Seq<char>, name: Seq<char>)
    requires
        root.len() > 0,
        root.last() != '/',
    ensures
        joined(root, name) == root + seq!['/'] + name,
        joined(root.push('/'), name) == root + seq!['/'] + name,
        joined(Seq::empty(), name) == name,
{
    assert(root.push('/') + name =~= root + seq!['/'] + name);
    assert(Seq::<char>::empty() + name =~= name);
}

} // verus!
