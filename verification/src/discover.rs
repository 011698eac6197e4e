//! The decisions of GPU discovery: which DRM entries are cards, which card is
//! an AMD one, which AMD card to watch, where its hwmon directory is, and what
//! the card is called.

use vstd::prelude::*;
use crate::text::{
    all_digits, has_prefix, last_index_of, len_before, lines, next_line, span_equals, span_find,
    span_rfind, span_starts_with, substring, to_chars, trim, trim_span,
};

verus! {

/// A DRM entry name of the form `card` followed by digits only (`card` itself
/// included).
pub open spec fn card_name(name: Seq<char>) -> bool {
    has_prefix(name, "card"@) && all_digits(name.skip("card"@.len() as int))
}

/// Whether the DRM entry `name` is a card.
pub fn is_card_name(name: &str) -> (b: bool)
    ensures
        b == card_name(name@),
{
    proof {
        reveal_strlit("card");
    }
    let v = to_chars(name);
    let p = to_chars("card");
    assert(v@.subrange(0, v.len() as int) =~= name@);
    if !span_starts_with(&v, 0, v.len(), &p) {
        return false;
    }
    let mut i: usize = p.len();
    while i < v.len()
        invariant
            p@ == "card"@,
            p.len() <= i <= v.len(),
            v@ == name@,
            forall|k: int| p.len() <= k < i ==> crate::text::is_digit(#[trigger] v@[k]),
        decreases v.len() - i,
    {
        let u = v[i] as u32;
        if u < 0x30 || u > 0x39 {
            assert(name@.skip(p.len() as int)[i - p.len()] == v@[i as int]);
            return false;
        }
        i = i + 1;
    }
    assert forall|k: int| 0 <= k < name@.skip(p.len() as int).len() implies crate::text::is_digit(
        #[trigger] name@.skip(p.len() as int)[k],
    ) by {
        assert(name@.skip(p.len() as int)[k] == v@[k + p.len()]);
    }
    true
}

/// The PCI vendor file of an AMD device: `0x1002`, give or take white space.
pub open spec fn amd_vendor(vendor: Seq<char>) -> bool {
    trim(vendor) == "0x1002"@
}

/// Whether the text of a PCI `vendor` file names AMD.
pub fn is_amd_vendor(vendor: &str) -> (b: bool)
    ensures
        b == amd_vendor(vendor@),
{
    let v = to_chars(vendor);
    let amd = to_chars("0x1002");
    assert(v@.subrange(0, v.len() as int) =~= vendor@);
    let (a, b) = trim_span(&v, 0, v.len());
    span_equals(&v, a, b, &amd)
}

/// The card to watch among AMD cards with VRAM sizes `vram`: one with the most
/// VRAM, the last such one where several tie.
pub fn select_card(vram: &Vec<u64>) -> (r: Option<usize>)
    ensures
        match r {
            None => vram.len() == 0,
            Some(i) => {
                &&& i < vram.len()
                &&& forall|j: int| 0 <= j < vram.len() ==> vram@[j] <= vram@[i as int]
                &&& forall|j: int| i < j < vram.len() ==> vram@[j] < vram@[i as int]
            },
        },
{
    if vram.len() == 0 {
        return None;
    }
    let mut best: usize = 0;
    let mut j: usize = 1;
    while j < vram.len()
        invariant
            0 < j <= vram.len(),
            best < j,
            forall|k: int| 0 <= k < j ==> vram@[k] <= vram@[best as int],
            forall|k: int| best < k < j ==> vram@[k] < vram@[best as int],
        decreases vram.len() - j,
    {
        if vram[j] >= vram[best] {
            best = j;
        }
        j = j + 1;
    }
    Some(best)
}

/// A hwmon directory entry name: it starts with `hwmon`.
pub open spec fn hwmon_name(name: Seq<char>) -> bool {
    has_prefix(name, "hwmon"@)
}

/// Whether the entry `names[i]`, `None` where the name is not UTF-8, is a
/// hwmon directory.
pub open spec fn hwmon_entry(names: Seq<Option<Seq<char>>>, i: int) -> bool {
    names[i] matches Some(n) && hwmon_name(n)
}

/// The first of the directory entries `names` (`None` where a name is not
/// UTF-8) that is a hwmon directory.
pub fn first_hwmon_dir(names: &Vec<Option<String>>) -> (r: Option<usize>)
    ensures
        match r {
            None => forall|i: int| 0 <= i < names.len() ==> !hwmon_entry(names.deep_view(), i),
            Some(i) => {
                &&& i < names.len()
                &&& hwmon_entry(names.deep_view(), i as int)
                &&& forall|j: int| 0 <= j < i ==> !hwmon_entry(names.deep_view(), j)
            },
        },
{
    let p = to_chars("hwmon");
    let mut i: usize = 0;
    while i < names.len()
        invariant
            i <= names.len(),
            p@ == "hwmon"@,
            forall|j: int| 0 <= j < i ==> !hwmon_entry(names.deep_view(), j),
        decreases names.len() - i,
    {
        match &names[i] {
            Some(n) => {
                let v = to_chars(n.as_str());
                assert(v@.subrange(0, v.len() as int) =~= n@);
                if span_starts_with(&v, 0, v.len(), &p) {
                    return Some(i);
                }
            },
            None => {},
        }
        i = i + 1;
    }
    None
}

/// The value of the first line of a `uevent` file that starts with
/// `PCI_SLOT_NAME=`, without that key.
pub open spec fn pci_slot(ls: Seq<Seq<char>>) -> Option<Seq<char>>
    decreases ls.len(),
{
    if ls.len() == 0 {
        None
    } else if has_prefix(ls[0], "PCI_SLOT_NAME="@) {
        Some(ls[0].skip("PCI_SLOT_NAME="@.len() as int))
    } else {
        pci_slot(ls.drop_first())
    }
}

/// The PCI slot that the text of a `uevent` file names.
pub fn pci_slot_name(uevent: &str) -> (r: Option<String>)
    ensures
        match pci_slot(lines(uevent@)) {
            None => r is None,
            Some(s) => r matches Some(x) && x@ == s,
        },
{
    let v = to_chars(uevent);
    let n = v.len();
    let key = to_chars("PCI_SLOT_NAME=");
    assert(v@.subrange(0, n as int) =~= uevent@);
    let mut pos: usize = 0;
    while pos < n
        invariant
            pos <= n == v.len(),
            v@ == uevent@,
            key@ == "PCI_SLOT_NAME="@,
            pci_slot(lines(uevent@)) == pci_slot(lines(v@.subrange(pos as int, n as int))),
        decreases n - pos,
    {
        let (e, nxt) = next_line(&v, pos, n);
        let ghost ls = lines(v@.subrange(pos as int, n as int));
        assert(ls[0] == v@.subrange(pos as int, e as int));
        assert(ls.drop_first() =~= lines(v@.subrange(nxt as int, n as int)));
        if span_starts_with(&v, pos, e, &key) {
            assert(v@.subrange(pos as int, e as int).skip(key.len() as int) =~= v@.subrange(
                pos + key.len(),
                e as int,
            ));
            return Some(substring(uevent, pos + key.len(), e));
        }
        pos = nxt;
    }
    assert(lines(v@.subrange(n as int, n as int)) =~= Seq::<Seq<char>>::empty());
    None
}

/// What follows the first `c` in `s`, or all of `s` where there is none
/// (`s.splitn(2, c).nth(1).unwrap_or(s)`).
pub open spec fn after_first(s: Seq<char>, c: char) -> Seq<char> {
    let k = len_before(s, c);
    if k < s.len() {
        s.skip(k + 1 as int)
    } else {
        s
    }
}

/// The PCI slot without its domain: what follows the first `:`, or the whole
/// slot where there is none.
pub fn short_slot(slot: &str) -> (r: String)
    ensures
        r@ == after_first(slot@, ':'),
{
    let v = to_chars(slot);
    let n = v.len();
    assert(v@.subrange(0, n as int) =~= slot@);
    let k = span_find(&v, 0, n, ':');
    if k < n {
        substring(slot, k + 1, n)
    } else {
        substring(slot, 0, n)
    }
}

/// The device description in a line of `lspci` output: what follows the
/// second `:`, trimmed (`s.splitn(3, ':').nth(2)`), where there are two.
pub open spec fn lspci_description(s: Seq<char>) -> Option<Seq<char>> {
    let k1 = len_before(s, ':');
    if k1 < s.len() {
        let rest = s.skip(k1 + 1 as int);
        let k2 = len_before(rest, ':');
        if k2 < rest.len() {
            Some(trim(rest.skip(k2 + 1 as int)))
        } else {
            None
        }
    } else {
        None
    }
}

/// The device description in the output of `lspci -s <slot>`.
pub fn lspci_device_name(stdout: &str) -> (r: Option<String>)
    ensures
        match lspci_description(stdout@) {
            None => r is None,
            Some(d) => r matches Some(x) && x@ == d,
        },
{
    let v = to_chars(stdout);
    let n = v.len();
    assert(v@.subrange(0, n as int) =~= stdout@);
    let k1 = span_find(&v, 0, n, ':');
    if k1 == n {
        return None;
    }
    let ghost rest = stdout@.skip(k1 + 1);
    assert(rest =~= v@.subrange(k1 + 1, n as int));
    let k2 = span_find(&v, k1 + 1, n, ':');
    if k2 == n {
        return None;
    }
    assert(rest.skip(k2 - k1) =~= v@.subrange(k2 + 1, n as int));
    let (a, b) = trim_span(&v, k2 + 1, n);
    Some(substring(stdout, a, b))
}

/// The last `[` of `s` comes after its last `]`: taking the text between them
/// would be a reversed range.
pub open spec fn brackets_reversed(s: Seq<char>) -> bool {
    match (last_index_of(s, '['), last_index_of(s, ']')) {
        (Some(a), Some(b)) => b < a,
        _ => false,
    }
}

/// The short marketing name in a device description: the text between its
/// last `[` and its last `]`, or the whole description where it lacks either.
pub open spec fn short_name(s: Seq<char>) -> Seq<char> {
    match (last_index_of(s, '['), last_index_of(s, ']')) {
        (Some(a), Some(b)) => s.subrange(a + 1, b),
        _ => s,
    }
}

/// Whether the brackets of a device description are the wrong way round for
/// `short_gpu_name`.
pub fn gpu_name_brackets_reversed(name: &str) -> (b: bool)
    ensures
        b == brackets_reversed(name@),
{
    let v = to_chars(name);
    let n = v.len();
    assert(v@.subrange(0, n as int) =~= name@);
    let open = span_rfind(&v, 0, n, '[');
    let close = span_rfind(&v, 0, n, ']');
    match (open, close) {
        (Some(a), Some(b)) => b < a,
        _ => false,
    }
}

/// The short marketing name in the device description `name`.
pub fn short_gpu_name(name: &str) -> (r: String)
    requires
        !brackets_reversed(name@),
    ensures
        r@ == short_name(name@),
{
    let v = to_chars(name);
    let n = v.len();
    assert(v@.subrange(0, n as int) =~= name@);
    let open = span_rfind(&v, 0, n, '[');
    let close = span_rfind(&v, 0, n, ']');
    match (open, close) {
        (Some(a), Some(b)) => substring(name, a + 1, b),
        _ => substring(name, 0, n),
    }
}

/// Only the vendor id `0x1002` names AMD: a vendor text is AMD's exactly
/// when, trimmed, it is `0x1002`, and `0x1002` with any white space around it
/// is.
pub proof fn law_amd_vendor_is_0x1002(s: Seq<char>, before: Seq<char>, after: Seq<char>)
    requires
        crate::text::all_ws(before),
        crate::text::all_ws(after),
    ensures
        amd_vendor(s) ==> trim(s) == "0x1002"@,
        amd_vendor(before + "0x1002"@ + after),
{
    reveal_strlit("0x1002");
    let id = "0x1002"@;
    assert(id[0] == '0' && id.last() == '2');
    crate::text::lemma_trim_around(before, id, after);
}

/// Two vendor texts that are both AMD's are the same once trimmed: no other
/// vendor id is taken for AMD's.
pub proof fn law_amd_vendor_unique(s1: Seq<char>, s2: Seq<char>)
    ensures
        amd_vendor(s1) && amd_vendor(s2) ==> trim(s1) == trim(s2),
{
}

/// Every name that starts with `hwmon`, whatever follows (`hwmon0`,
/// `hwmon12`, ...), is a hwmon directory, and every hwmon directory name is
/// `hwmon` followed by something.
pub proof fn law_hwmon_names(rest: Seq<char>, s: Seq<char>)
    ensures
        hwmon_name("hwmon"@ + rest),
        hwmon_name(s) ==> s =~= "hwmon"@ + s.skip(5),
{
    reveal_strlit("hwmon");
    assert(("hwmon"@ + rest).take(5) =~= "hwmon"@);
    if hwmon_name(s) {
        assert(s.take(5) == "hwmon"@);
        assert(s =~= s.take(5) + s.skip(5));
    }
}

/// A DRM entry is a card exactly when it is `card` followed by ASCII digits
/// only, however many (`card0`, `card12`, but not `card0-DP-1`).
pub proof fn law_card_names(s: Seq<char>)
    ensures
        card_name("card"@ + s) <==> crate::text::all_digits(s),
        !has_prefix(s, "card"@) ==> !card_name(s),
{
    reveal_strlit("card");
    assert(("card"@ + s).take(4) =~= "card"@);
    assert(("card"@ + s).skip(4) =~= s);
}

/// The slot comes from the first line that starts with `PCI_SLOT_NAME=`:
/// lines before it without the key are passed over, lines after it do not
/// matter, and its value is the rest of the line.
pub proof fn law_pci_slot_first_line(ls: Seq<Seq<char>>, s: Seq<char>, rest: Seq<Seq<char>>)
    requires
        pci_slot(ls) is None,
    ensures
        pci_slot(ls.push("PCI_SLOT_NAME="@ + s) + rest) == Some(s),
    decreases ls.len(),
{
    reveal_strlit("PCI_SLOT_NAME=");
    let l = "PCI_SLOT_NAME="@ + s;
    let all = ls.push(l) + rest;
    if ls.len() == 0 {
        assert(all[0] == l);
        assert(l.take(14) =~= "PCI_SLOT_NAME="@);
        assert(l.skip(14) =~= s);
    } else {
        assert(all[0] == ls[0]);
        assert(all.drop_first() =~= ls.drop_first().push(l) + rest);
        law_pci_slot_first_line(ls.drop_first(), s, rest);
    }
}

/// Dropping the PCI domain: what follows the first `:`, whatever it holds,
/// or the whole slot where there is no `:`.
pub proof fn law_after_first_colon(a: Seq<char>, b: Seq<char>)
    requires
        crate::text::lacks(a, ':'),
    ensures
        after_first(a + ":"@ + b, ':') == b,
        after_first(a, ':') == a,
{
    reveal_strlit(":");
    crate::text::lemma_len_before_split(a, ':', b);
    assert(a + ":"@ + b =~= a + (seq![':'] + b));
    assert((a + (seq![':'] + b)).skip(a.len() + 1 as int) =~= b);
    crate::text::lemma_len_before_absent(a, ':');
}

/// The device description is what follows the second `:` of the `lspci`
/// line, trimmed, whatever it holds (colons included).
pub proof fn law_lspci_after_second_colon(a: Seq<char>, b: Seq<char>, c: Seq<char>)
    requires
        crate::text::lacks(a, ':'),
        crate::text::lacks(b, ':'),
    ensures
        lspci_description(a + ":"@ + b + ":"@ + c) == Some(trim(c)),
{
    reveal_strlit(":");
    let s = a + ":"@ + b + ":"@ + c;
    let r = b + (seq![':'] + c);
    assert(s =~= a + (seq![':'] + r));
    crate::text::lemma_len_before_split(a, ':', r);
    assert(s.skip(a.len() + 1 as int) =~= r);
    crate::text::lemma_len_before_split(b, ':', c);
    assert(r.skip(b.len() + 1 as int) =~= c);
}

/// The short name is the text inside the last pair of brackets, whatever
/// comes before it; a description without `[` is kept whole.
pub proof fn law_short_name_last_brackets(a: Seq<char>, b: Seq<char>, c: Seq<char>)
    requires
        crate::text::lacks(b, '['),
        crate::text::lacks(b, ']'),
        crate::text::lacks(c, '['),
        crate::text::lacks(c, ']'),
    ensures
        short_name(a + "["@ + b + "]"@ + c) == b,
        !brackets_reversed(a + "["@ + b + "]"@ + c),
        short_name(c) == c,
{
    reveal_strlit("[");
    reveal_strlit("]");
    let s = a + "["@ + b + "]"@ + c;
    let y = b + seq![']'] + c;
    assert(crate::text::lacks(y, '[')) by {
        assert forall|i: int| 0 <= i < y.len() implies #[trigger] y[i] != '[' by {
            if i < b.len() {
                assert(y[i] == b[i]);
            } else if i > b.len() {
                assert(y[i] == c[i - b.len() - 1]);
            }
        }
    }
    assert(s =~= a + seq!['['] + y);
    crate::text::lemma_last_index_split(a, '[', y);
    assert(s =~= (a + seq!['['] + b) + seq![']'] + c);
    crate::text::lemma_last_index_split(a + seq!['['] + b, ']', c);
    assert(s.subrange(a.len() + 1 as int, a.len() + 1 + b.len() as int) =~= b);
    crate::text::lemma_last_index_absent(c, '[');
}

} // verus!
