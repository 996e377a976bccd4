//! The object model: three variants (blob, tree, commit) sharing one
//! canonical serialization template, `<type> <payload-length>\0<payload>`,
//! and one digest-assignment capability used by the storage engine.

use vstd::prelude::*;
use crate::author::{Author, author_rep};
use crate::bytebuf::{bm_bytes, bm_new, bm_put, bm_to_vec};
use crate::hex::{HexError, all_hex_digits, decode_hex, hex_decoded};
use crate::lexorder::{lex_le, lemma_lex_le_total, lemma_lex_le_trans, lemma_lex_le_antisym, lex_le_bytes};
use crate::numfmt::{dec_rep, oct_rep, u32_to_oct, u64_to_dec};
use crate::database::append_range;
use crate::workspace::bytes_equal;

verus! {

/// The byte tag of a blob object.
pub open spec fn blob_tag() -> Seq<u8> {
    seq![98u8, 108u8, 111u8, 98u8]
}

/// The byte tag of a tree object.
pub open spec fn tree_tag() -> Seq<u8> {
    seq![116u8, 114u8, 101u8, 101u8]
}

/// The byte tag of a commit object.
pub open spec fn commit_tag() -> Seq<u8> {
    seq![99u8, 111u8, 109u8, 109u8, 105u8, 116u8]
}

/// The serialization template every variant follows: the type tag, a
/// space, the decimal payload length, a NUL, then the payload.
pub open spec fn header_rep(tag: Seq<u8>, payload: Seq<u8>) -> Seq<u8> {
    tag + seq![32u8] + dec_rep(payload.len()) + seq![0u8] + payload
}

/// The capability every storable object offers: a type tag, a canonical
/// byte serialization, and a digest field the storage engine assigns.
pub trait Object: Sized {
    /// The hex digest assigned by the store; empty until assigned.
    spec fn spec_oid(&self) -> Seq<u8>;

    /// The type tag as text.
    spec fn spec_type(&self) -> Seq<char>;

    /// The canonical serialization, or the hex-decode error that stops it.
    spec fn spec_serial(&self) -> Result<Seq<u8>, HexError>;

    /// The digest currently carried by this object.
    fn get_oid(&self) -> (r: Vec<u8>)
        ensures
            r@ == self.spec_oid(),
    ;

    /// Assigns the digest. Only the digest changes: the serialization and
    /// type are untouched, so the digest stays true to the content.
    fn set_oid(&mut self, oid: Vec<u8>)
        ensures
            final(self).spec_oid() == oid@,
            final(self).spec_serial() == old(self).spec_serial(),
            final(self).spec_type() == old(self).spec_type(),
    ;

    /// The type tag.
    fn get_type(&self) -> (r: String)
        ensures
            r@ == self.spec_type(),
    ;

    /// Serializes the object to its canonical bytes.
    fn bytes(&self) -> (r: Result<Vec<u8>, HexError>)
        ensures
            match r {
                Ok(v) => self.spec_serial() is Ok && v@ == self.spec_serial()->Ok_0,
                Err(e) => self.spec_serial() == Err::<Seq<u8>, HexError>(e),
            },
    ;
}

/// Copies a byte vector.
fn clone_bytes(v: &Vec<u8>) -> (r: Vec<u8>)
    ensures
        r@ == v@,
{
    let r = v.clone();
    proof {
        assert(r@ =~= v@);
    }
    r
}

/// Wraps a payload in the serialization template.
fn wrap_header(tag: &Vec<u8>, payload: &Vec<u8>) -> (r: Vec<u8>)
    ensures
        r@ == header_rep(tag@, payload@),
{
    let mut buf = bm_new();
    bm_put(&mut buf, tag.as_slice());
    let space: Vec<u8> = vec![32u8];
    bm_put(&mut buf, space.as_slice());
    let len_dec = u64_to_dec(payload.len() as u64);
    bm_put(&mut buf, len_dec.as_slice());
    let nul: Vec<u8> = vec![0u8];
    bm_put(&mut buf, nul.as_slice());
    bm_put(&mut buf, payload.as_slice());
    let r = bm_to_vec(&buf);
    proof {
        assert(r@ =~= header_rep(tag@, payload@));
    }
    r
}

/// Raw file content. No internal structure: the payload is the content.
pub struct Blob {
    oid: Vec<u8>,
    data: Vec<u8>,
}

impl Blob {
    /// The wrapped content bytes.
    pub closed spec fn spec_data(self) -> Seq<u8> {
        self.data@
    }

    /// Wraps file content; the digest starts unset.
    pub fn new(data: Vec<u8>) -> (r: Blob)
        ensures
            r.spec_data() == data@,
            r.spec_oid() == Seq::<u8>::empty(),
    {
        Blob { oid: Vec::new(), data }
    }
}

impl Object for Blob {
    open spec fn spec_oid(&self) -> Seq<u8> {
        self.spec_stored_oid()
    }

    open spec fn spec_type(&self) -> Seq<char> {
        "blob"@
    }

    open spec fn spec_serial(&self) -> Result<Seq<u8>, HexError> {
        Ok(header_rep(blob_tag(), self.spec_data()))
    }

    fn get_oid(&self) -> (r: Vec<u8>) {
        clone_bytes(&self.oid)
    }

    fn set_oid(&mut self, oid: Vec<u8>) {
        self.oid = oid;
    }

    fn get_type(&self) -> (r: String) {
        "blob".to_owned()
    }

    fn bytes(&self) -> (r: Result<Vec<u8>, HexError>) {
        let tag: Vec<u8> = vec![98u8, 108u8, 111u8, 98u8];
        Ok(wrap_header(&tag, &self.data))
    }
}

impl Blob {
    /// The stored digest field.
    pub closed spec fn spec_stored_oid(self) -> Seq<u8> {
        self.oid@
    }
}

/// One line item inside a tree: a name, the hex digest of the blob or
/// subtree it references, and its permission bits. Not itself an object.
pub struct Entry {
    name: Vec<u8>,
    oid: Vec<u8>,
    mode: u32,
}

impl Entry {
    /// The entry's file name.
    pub closed spec fn spec_name(self) -> Seq<u8> {
        self.name@
    }

    /// The hex digest of the referenced object.
    pub closed spec fn spec_entry_oid(self) -> Seq<u8> {
        self.oid@
    }

    /// The permission bits.
    pub closed spec fn spec_mode(self) -> u32 {
        self.mode
    }

    /// Builds an entry from a name, a hex digest, and permission bits.
    pub fn new(name: Vec<u8>, oid: Vec<u8>, mode: u32) -> (r: Entry)
        ensures
            r.spec_name() == name@,
            r.spec_entry_oid() == oid@,
            r.spec_mode() == mode,
    {
        Entry { name, oid, mode }
    }
}

/// The entry's digest text decodes to raw bytes.
pub open spec fn entry_decodes(e: Entry) -> bool {
    e.spec_entry_oid().len() % 2 == 0 && all_hex_digits(e.spec_entry_oid())
}

/// The error raised by an entry whose digest text does not decode.
pub open spec fn entry_err(e: Entry) -> HexError {
    if e.spec_entry_oid().len() % 2 != 0 {
        HexError::OddLength
    } else {
        HexError::InvalidDigit
    }
}

/// One serialized entry: `<octal-mode> <name>\0<raw-binary-digest>`. The
/// digest is stored decoded, not as hex text.
pub open spec fn entry_rep(e: Entry) -> Seq<u8> {
    oct_rep(e.spec_mode() as nat) + seq![32u8] + e.spec_name() + seq![0u8] + hex_decoded(
        e.spec_entry_oid(),
    )
}

/// Entries stand in ascending name order.
pub open spec fn entries_sorted(s: Seq<Entry>) -> bool {
    forall|i: int, j: int|
        0 <= i < j < s.len() ==> #[trigger] lex_le(s[i].spec_name(), s[j].spec_name())
}

/// All entry names in the sequence differ.
pub open spec fn entry_names_distinct(s: Seq<Entry>) -> bool {
    forall|i: int, j: int|
        0 <= i < j < s.len() ==> #[trigger] s[i].spec_name() != #[trigger] s[j].spec_name()
}

/// A tree's payload when every entry's digest decodes: the serialized
/// entries concatenated in sequence order.
pub open spec fn tree_payload_ok(s: Seq<Entry>) -> Seq<u8>
    decreases s.len(),
{
    if s.len() == 0 {
        Seq::empty()
    } else {
        entry_rep(s[0]) + tree_payload_ok(s.drop_first())
    }
}

/// A tree's payload, or the error of the first entry whose digest does
/// not decode.
pub open spec fn tree_payload(s: Seq<Entry>) -> Result<Seq<u8>, HexError>
    decreases s.len(),
{
    if s.len() == 0 {
        Ok(Seq::empty())
    } else if !entry_decodes(s[0]) {
        Err(entry_err(s[0]))
    } else {
        match tree_payload(s.drop_first()) {
            Ok(rest) => Ok(entry_rep(s[0]) + rest),
            Err(e) => Err(e),
        }
    }
}

/// When every entry decodes, the payload is the plain concatenation.
pub proof fn lemma_tree_payload_all_ok(s: Seq<Entry>)
    requires
        forall|i: int| 0 <= i < s.len() ==> entry_decodes(#[trigger] s[i]),
    ensures
        tree_payload(s) == Ok::<Seq<u8>, HexError>(tree_payload_ok(s)),
    decreases s.len(),
{
    if s.len() > 0 {
        assert(forall|i: int|
            0 <= i < s.drop_first().len() ==> entry_decodes(#[trigger] s.drop_first()[i]));
        lemma_tree_payload_all_ok(s.drop_first());
    }
}

/// The payload fails with the error of the first entry that does not
/// decode.
pub proof fn lemma_tree_payload_first_err(s: Seq<Entry>, i: int)
    requires
        0 <= i < s.len(),
        forall|j: int| 0 <= j < i ==> entry_decodes(#[trigger] s[j]),
        !entry_decodes(s[i]),
    ensures
        tree_payload(s) == Err::<Seq<u8>, HexError>(entry_err(s[i])),
    decreases i,
{
    if i > 0 {
        assert(entry_decodes(s[0]));
        assert(forall|j: int|
            0 <= j < i - 1 ==> entry_decodes(#[trigger] s.drop_first()[j]));
        assert(s.drop_first()[i - 1] == s[i]);
        lemma_tree_payload_first_err(s.drop_first(), i - 1);
    }
}

/// Appending a decodable entry extends the concatenated payload.
pub proof fn lemma_tree_payload_ok_push(s: Seq<Entry>, e: Entry)
    ensures
        tree_payload_ok(s.push(e)) == tree_payload_ok(s) + entry_rep(e),
    decreases s.len(),
{
    if s.len() == 0 {
        assert(s.push(e).drop_first() =~= Seq::<Entry>::empty());
        assert(s.push(e)[0] == e);
        assert(tree_payload_ok(s.push(e)) == entry_rep(e) + tree_payload_ok(
            Seq::<Entry>::empty(),
        ));
        assert(entry_rep(e) + Seq::<u8>::empty() =~= entry_rep(e));
        assert(tree_payload_ok(s) + entry_rep(e) =~= entry_rep(e));
    } else {
        assert(s.push(e).drop_first() =~= s.drop_first().push(e));
        lemma_tree_payload_ok_push(s.drop_first(), e);
        assert((entry_rep(s[0]) + tree_payload_ok(s.drop_first())) + entry_rep(e) =~= entry_rep(
            s[0],
        ) + (tree_payload_ok(s.drop_first()) + entry_rep(e)));
    }
}

/// Inserting into a sequence inserts into its multiset.
proof fn lemma_insert_to_multiset<A>(s: Seq<A>, k: int, e: A)
    requires
        0 <= k <= s.len(),
    ensures
        s.insert(k, e).to_multiset() == s.to_multiset().insert(e),
{
    broadcast use vstd::seq_lib::group_to_multiset_ensures;
    broadcast use vstd::multiset::group_multiset_axioms;

    let front = s.subrange(0, k);
    let back = s.subrange(k, s.len() as int);
    assert(s.insert(k, e) =~= front.push(e) + back);
    vstd::seq_lib::lemma_multiset_commutative(front.push(e), back);
    assert(s =~= front + back);
    vstd::seq_lib::lemma_multiset_commutative(front, back);
    assert(front.push(e).to_multiset() =~= front.to_multiset().insert(e));
    assert(front.to_multiset().insert(e).add(back.to_multiset()) =~= front.to_multiset().add(
        back.to_multiset(),
    ).insert(e));
}

/// Inserting an entry at its insertion point keeps the sequence ordered.
proof fn lemma_sorted_insert(s: Seq<Entry>, k: int, e: Entry)
    requires
        entries_sorted(s),
        0 <= k <= s.len(),
        forall|m: int| 0 <= m < k ==> lex_le(#[trigger] s[m].spec_name(), e.spec_name()),
        k < s.len() ==> !lex_le(s[k].spec_name(), e.spec_name()),
    ensures
        entries_sorted(s.insert(k, e)),
{
    s.insert_ensures(k, e);
    let t = s.insert(k, e);
    assert forall|i: int, j: int| 0 <= i < j < t.len() implies #[trigger] lex_le(
        t[i].spec_name(),
        t[j].spec_name(),
    ) by {
        if j < k {
            assert(lex_le(s[i].spec_name(), s[j].spec_name()));
        } else if j == k {
            assert(lex_le(s[i].spec_name(), e.spec_name()));
        } else if i == k {
            // e slots before the first entry that refused to come first
            lemma_lex_le_total(e.spec_name(), s[k].spec_name());
            assert(lex_le(e.spec_name(), s[k].spec_name()));
            if j > k + 1 {
                assert(lex_le(s[k].spec_name(), s[j - 1].spec_name()));
                lemma_lex_le_trans(e.spec_name(), s[k].spec_name(), s[j - 1].spec_name());
            }
        } else if i < k {
            assert(lex_le(s[i].spec_name(), s[j - 1].spec_name()));
        } else {
            assert(lex_le(s[i - 1].spec_name(), s[j - 1].spec_name()));
        }
    }
}

/// The position at which `name` slots into a name-ordered vector: every
/// entry before it is at or before `name`, the one at it (if any) is not.
fn insertion_index(out: &Vec<Entry>, name: &Vec<u8>) -> (k: usize)
    ensures
        k <= out@.len(),
        forall|m: int| 0 <= m < k ==> lex_le(#[trigger] out@[m].spec_name(), name@),
        k < out@.len() ==> !lex_le(out@[k as int].spec_name(), name@),
{
    let mut k: usize = 0;
    while k < out.len()
        invariant
            k <= out@.len(),
            forall|m: int| 0 <= m < k ==> lex_le(#[trigger] out@[m].spec_name(), name@),
        decreases out@.len() - k,
    {
        if !lex_le_bytes(out[k].name.as_slice(), name.as_slice()) {
            return k;
        }
        k = k + 1;
    }
    k
}

/// Orders entries by ascending name, keeping the same collection of
/// entries (insertion sort; ties keep no particular order).
fn sort_entries(v: Vec<Entry>) -> (r: Vec<Entry>)
    ensures
        entries_sorted(r@),
        r@.to_multiset() == v@.to_multiset(),
{
    broadcast use vstd::seq_lib::group_to_multiset_ensures;
    broadcast use vstd::multiset::group_multiset_axioms;

    let mut work = v;
    let mut out: Vec<Entry> = Vec::new();
    proof {
        assert(out@.to_multiset().add(work@.to_multiset()) =~= v@.to_multiset());
    }
    while work.len() > 0
        invariant
            entries_sorted(out@),
            out@.to_multiset().add(work@.to_multiset()) == v@.to_multiset(),
        decreases work@.len(),
    {
        let ghost old_work = work@;
        let e = match work.pop() {
            Some(e) => e,
            None => {
                proof {
                    assert(false);
                }
                return out;
            },
        };
        proof {
            assert(old_work =~= work@.push(e));
            assert(old_work.to_multiset() == work@.push(e).to_multiset());
            vstd::seq_lib::to_multiset_build(work@, e);
        }
        let k = insertion_index(&out, &e.name);
        let ghost old_out = out@;
        out.insert(k, e);
        proof {
            lemma_sorted_insert(old_out, k as int, e);
            lemma_insert_to_multiset(old_out, k as int, e);
            assert(out@.to_multiset().add(work@.to_multiset()) =~= v@.to_multiset());
        }
    }
    proof {
        assert(work@.to_multiset().len() == 0);
        assert(out@.to_multiset().add(work@.to_multiset()) =~= out@.to_multiset());
    }
    out
}

/// A directory snapshot: entries serialized in ascending name order, so
/// that one entry set has one serialization whatever the insertion order.
pub struct Tree {
    oid: Vec<u8>,
    entries: Vec<Entry>,
}

impl Tree {
    /// The entries, in serialization order.
    pub closed spec fn spec_entries(self) -> Seq<Entry> {
        self.entries@
    }

    /// The stored digest field.
    pub closed spec fn spec_stored_oid(self) -> Seq<u8> {
        self.oid@
    }

    /// Builds a tree from entries in any order; they are held sorted by
    /// name, so equal entry sets serialize identically.
    pub fn new(entries: Vec<Entry>) -> (r: Tree)
        ensures
            r.spec_oid() == Seq::<u8>::empty(),
            entries_sorted(r.spec_entries()),
            r.spec_entries().to_multiset() == entries@.to_multiset(),
    {
        let sorted = sort_entries(entries);
        Tree { oid: Vec::new(), entries: sorted }
    }
}

impl Object for Tree {
    open spec fn spec_oid(&self) -> Seq<u8> {
        self.spec_stored_oid()
    }

    open spec fn spec_type(&self) -> Seq<char> {
        "tree"@
    }

    open spec fn spec_serial(&self) -> Result<Seq<u8>, HexError> {
        match tree_payload(self.spec_entries()) {
            Ok(p) => Ok(header_rep(tree_tag(), p)),
            Err(e) => Err(e),
        }
    }

    fn get_oid(&self) -> (r: Vec<u8>) {
        clone_bytes(&self.oid)
    }

    fn set_oid(&mut self, oid: Vec<u8>) {
        self.oid = oid;
    }

    fn get_type(&self) -> (r: String) {
        "tree".to_owned()
    }

    fn bytes(&self) -> (r: Result<Vec<u8>, HexError>) {
        let mut payload = bm_new();
        let mut i: usize = 0;
        while i < self.entries.len()
            invariant
                i <= self.entries@.len(),
                forall|j: int| 0 <= j < i ==> entry_decodes(#[trigger] self.entries@[j]),
                bm_bytes(payload) == tree_payload_ok(self.entries@.subrange(0, i as int)),
            decreases self.entries@.len() - i,
        {
            let mode_oct = u32_to_oct(self.entries[i].mode);
            bm_put(&mut payload, mode_oct.as_slice());
            let space: Vec<u8> = vec![32u8];
            bm_put(&mut payload, space.as_slice());
            bm_put(&mut payload, self.entries[i].name.as_slice());
            let nul: Vec<u8> = vec![0u8];
            bm_put(&mut payload, nul.as_slice());
            let raw = match decode_hex(self.entries[i].oid.as_slice()) {
                Ok(raw) => raw,
                Err(e) => {
                    proof {
                        lemma_tree_payload_first_err(self.entries@, i as int);
                    }
                    return Err(e);
                },
            };
            bm_put(&mut payload, raw.as_slice());
            proof {
                assert(self.entries@.subrange(0, i + 1) =~= self.entries@.subrange(
                    0,
                    i as int,
                ).push(self.entries@[i as int]));
                lemma_tree_payload_ok_push(
                    self.entries@.subrange(0, i as int),
                    self.entries@[i as int],
                );
                assert(bm_bytes(payload) =~= tree_payload_ok(
                    self.entries@.subrange(0, i + 1),
                ));
            }
            i = i + 1;
        }
        proof {
            assert(self.entries@.subrange(0, self.entries@.len() as int) =~= self.entries@);
            lemma_tree_payload_all_ok(self.entries@);
        }
        let pv = bm_to_vec(&payload);
        let tag: Vec<u8> = vec![116u8, 114u8, 101u8, 101u8];
        Ok(wrap_header(&tag, &pv))
    }
}

/// The order is reflexive (a corollary of totality).
proof fn lemma_lex_le_refl(a: Seq<u8>)
    ensures
        lex_le(a, a),
{
    lemma_lex_le_total(a, a);
}

/// Distinct names carry across multiset equality: if one sequence has no
/// repeated name, neither has any other arrangement of the same entries.
pub proof fn lemma_names_distinct_transfer(x: Seq<Entry>, y: Seq<Entry>)
    requires
        x.to_multiset() == y.to_multiset(),
        entry_names_distinct(x),
    ensures
        entry_names_distinct(y),
{
    broadcast use vstd::seq_lib::group_to_multiset_ensures;
    broadcast use vstd::multiset::group_multiset_axioms;

    // No name repeats, so no entry repeats either.
    assert(x.no_duplicates()) by {
        assert forall|i: int, j: int|
            0 <= i < x.len() && 0 <= j < x.len() && i != j implies x[i] != x[j] by {
            if i < j {
                assert(x[i].spec_name() != x[j].spec_name());
            } else {
                assert(x[j].spec_name() != x[i].spec_name());
            }
        }
    }
    x.lemma_multiset_has_no_duplicates();
    y.lemma_multiset_has_no_duplicates_conv();
    assert forall|i: int, j: int| 0 <= i < j < y.len() implies #[trigger] y[i].spec_name()
        != #[trigger] y[j].spec_name() by {
        if y[i].spec_name() == y[j].spec_name() {
            assert(y[i] != y[j]);
            assert(y.contains(y[i]));
            assert(y.contains(y[j]));
            assert(y.to_multiset().count(y[i]) > 0);
            assert(y.to_multiset().count(y[j]) > 0);
            assert(x.to_multiset().count(y[i]) > 0);
            assert(x.to_multiset().count(y[j]) > 0);
            assert(x.contains(y[i]));
            assert(x.contains(y[j]));
            let a = choose|a: int| 0 <= a < x.len() && x[a] == y[i];
            let b = choose|b: int| 0 <= b < x.len() && x[b] == y[j];
            assert(a != b);
            if a < b {
                assert(x[a].spec_name() != x[b].spec_name());
            } else {
                assert(x[b].spec_name() != x[a].spec_name());
            }
            assert(false);
        }
    }
}

/// Two name-ordered sequences holding the same entries, with no repeated
/// name, are the same sequence.
pub proof fn lemma_sorted_distinct_unique(x: Seq<Entry>, y: Seq<Entry>)
    requires
        entries_sorted(x),
        entries_sorted(y),
        entry_names_distinct(x),
        x.to_multiset() == y.to_multiset(),
    ensures
        x == y,
    decreases x.len(),
{
    broadcast use vstd::seq_lib::group_to_multiset_ensures;
    broadcast use vstd::multiset::group_multiset_axioms;

    assert(x.len() == x.to_multiset().len());
    assert(y.len() == y.to_multiset().len());
    if x.len() == 0 {
        assert(x =~= y);
    } else {
        assert(y.contains(y[0]));
        assert(y.to_multiset().count(y[0]) > 0);
        assert(x.to_multiset().count(y[0]) > 0);
        assert(x.contains(y[0]));
        let i = choose|i: int| 0 <= i < x.len() && x[i] == y[0];
        assert(x.contains(x[0]));
        assert(x.to_multiset().count(x[0]) > 0);
        assert(y.to_multiset().count(x[0]) > 0);
        assert(y.contains(x[0]));
        let j = choose|j: int| 0 <= j < y.len() && y[j] == x[0];
        // The least name of each side heads it, so the heads share a name.
        if i > 0 {
            assert(lex_le(x[0].spec_name(), x[i].spec_name()));
        } else {
            lemma_lex_le_refl(x[0].spec_name());
        }
        if j > 0 {
            assert(lex_le(y[0].spec_name(), y[j].spec_name()));
        } else {
            lemma_lex_le_refl(y[0].spec_name());
        }
        lemma_lex_le_antisym(x[0].spec_name(), y[0].spec_name());
        assert(x[i].spec_name() == x[0].spec_name());
        // One name occurs once, so the heads are the same entry.
        if i > 0 {
            assert(x[0].spec_name() != x[i].spec_name());
            assert(false);
        }
        assert(x[0] == y[0]);
        let xt = x.drop_first();
        let yt = y.drop_first();
        assert(x.remove(0) =~= xt);
        assert(y.remove(0) =~= yt);
        assert(x.remove(0).to_multiset() =~= x.to_multiset().remove(x[0]));
        assert(y.remove(0).to_multiset() =~= y.to_multiset().remove(y[0]));
        assert(xt.to_multiset() == yt.to_multiset());
        assert(entries_sorted(xt)) by {
            assert forall|p: int, q: int| 0 <= p < q < xt.len() implies #[trigger] lex_le(
                xt[p].spec_name(),
                xt[q].spec_name(),
            ) by {
                assert(lex_le(x[p + 1].spec_name(), x[q + 1].spec_name()));
            }
        }
        assert(entries_sorted(yt)) by {
            assert forall|p: int, q: int| 0 <= p < q < yt.len() implies #[trigger] lex_le(
                yt[p].spec_name(),
                yt[q].spec_name(),
            ) by {
                assert(lex_le(y[p + 1].spec_name(), y[q + 1].spec_name()));
            }
        }
        assert(entry_names_distinct(xt)) by {
            assert forall|p: int, q: int| 0 <= p < q < xt.len() implies #[trigger] xt[p].spec_name()
                != #[trigger] xt[q].spec_name() by {
                assert(x[p + 1].spec_name() != x[q + 1].spec_name());
            }
        }
        lemma_sorted_distinct_unique(xt, yt);
        assert forall|m: int| 0 <= m < x.len() implies x[m] == y[m] by {
            if m > 0 {
                assert(x[m] == xt[m - 1]);
                assert(y[m] == yt[m - 1]);
            }
        }
        assert(x =~= y);
    }
}

/// Law: tree serialization is canonical. Two trees holding the same
/// entries — in whatever insertion order — with no repeated name hold
/// them in the same order and serialize to the same bytes.
pub proof fn lemma_tree_canonical(t1: Tree, t2: Tree)
    requires
        entries_sorted(t1.spec_entries()),
        entries_sorted(t2.spec_entries()),
        entry_names_distinct(t1.spec_entries()),
        t1.spec_entries().to_multiset() == t2.spec_entries().to_multiset(),
    ensures
        t1.spec_entries() == t2.spec_entries(),
        t1.spec_serial() == t2.spec_serial(),
{
    lemma_sorted_distinct_unique(t1.spec_entries(), t2.spec_entries());
}

/// `tree ` — the line naming the snapshot the commit records.
pub open spec fn lit_tree_sp() -> Seq<u8> {
    seq![116u8, 114u8, 101u8, 101u8, 32u8]
}

/// `\nparent ` — the line naming the preceding commit, when there is one.
pub open spec fn lit_nl_parent_sp() -> Seq<u8> {
    seq![10u8, 112u8, 97u8, 114u8, 101u8, 110u8, 116u8, 32u8]
}

/// `\nauthor `.
pub open spec fn lit_nl_author_sp() -> Seq<u8> {
    seq![10u8, 97u8, 117u8, 116u8, 104u8, 111u8, 114u8, 32u8]
}

/// `\ncommitter `.
pub open spec fn lit_nl_committer_sp() -> Seq<u8> {
    seq![10u8, 99u8, 111u8, 109u8, 109u8, 105u8, 116u8, 116u8, 101u8, 114u8, 32u8]
}

/// `\n\n` — the blank line before the free-form message.
pub open spec fn lit_blank_line() -> Seq<u8> {
    seq![10u8, 10u8]
}

/// A commit's payload: its tree digest, its parent digest when it has
/// one (a root commit has none), the identity twice — as author and as
/// committer — and the message after a blank line.
pub open spec fn commit_payload(
    parent: Option<Seq<u8>>,
    tree_oid: Seq<u8>,
    author: Author,
    message: Seq<u8>,
) -> Seq<u8> {
    let parent_part = match parent {
        Some(p) => lit_nl_parent_sp() + p,
        None => Seq::<u8>::empty(),
    };
    lit_tree_sp() + tree_oid + parent_part + lit_nl_author_sp() + author_rep(author)
        + lit_nl_committer_sp() + author_rep(author) + lit_blank_line() + message
}

/// A commit record: one tree digest, an optional parent digest, an
/// identity embedded by value, and a free-form message.
pub struct Commit {
    oid: Vec<u8>,
    parent: Option<Vec<u8>>,
    tree_oid: Vec<u8>,
    author: Author,
    message: Vec<u8>,
}

impl Commit {
    /// The parent commit digest; a root commit carries none.
    pub closed spec fn spec_parent(self) -> Option<Seq<u8>> {
        match self.parent {
            Some(p) => Some(p@),
            None => None,
        }
    }

    /// The digest of the tree this commit records.
    pub closed spec fn spec_tree_oid(self) -> Seq<u8> {
        self.tree_oid@
    }

    /// The embedded identity.
    pub closed spec fn spec_author(self) -> Author {
        self.author
    }

    /// The free-form message.
    pub closed spec fn spec_message(self) -> Seq<u8> {
        self.message@
    }

    /// The stored digest field.
    pub closed spec fn spec_stored_oid(self) -> Seq<u8> {
        self.oid@
    }

    /// Builds a commit record; the digest starts unset.
    pub fn new(parent: Option<Vec<u8>>, tree_oid: Vec<u8>, author: Author, message: Vec<u8>) -> (r:
        Commit)
        ensures
            r.spec_oid() == Seq::<u8>::empty(),
            r.spec_parent() == match parent {
                Some(p) => Some(p@),
                None => None::<Seq<u8>>,
            },
            r.spec_tree_oid() == tree_oid@,
            r.spec_author() == author,
            r.spec_message() == message@,
    {
        Commit { oid: Vec::new(), parent, tree_oid, author, message }
    }
}

impl Object for Commit {
    open spec fn spec_oid(&self) -> Seq<u8> {
        self.spec_stored_oid()
    }

    open spec fn spec_type(&self) -> Seq<char> {
        "commit"@
    }

    open spec fn spec_serial(&self) -> Result<Seq<u8>, HexError> {
        Ok(
            header_rep(
                commit_tag(),
                commit_payload(
                    self.spec_parent(),
                    self.spec_tree_oid(),
                    self.spec_author(),
                    self.spec_message(),
                ),
            ),
        )
    }

    fn get_oid(&self) -> (r: Vec<u8>) {
        clone_bytes(&self.oid)
    }

    fn set_oid(&mut self, oid: Vec<u8>) {
        self.oid = oid;
    }

    fn get_type(&self) -> (r: String) {
        "commit".to_owned()
    }

    fn bytes(&self) -> (r: Result<Vec<u8>, HexError>) {
        let mut buf = bm_new();
        let tree_sp: Vec<u8> = vec![116u8, 114u8, 101u8, 101u8, 32u8];
        bm_put(&mut buf, tree_sp.as_slice());
        bm_put(&mut buf, self.tree_oid.as_slice());
        match &self.parent {
            Some(p) => {
                let nl_parent: Vec<u8> = vec![10u8, 112u8, 97u8, 114u8, 101u8, 110u8, 116u8, 32u8];
                bm_put(&mut buf, nl_parent.as_slice());
                bm_put(&mut buf, p.as_slice());
            },
            None => {},
        }
        let author_line = self.author.bytes();
        let nl_author: Vec<u8> = vec![10u8, 97u8, 117u8, 116u8, 104u8, 111u8, 114u8, 32u8];
        bm_put(&mut buf, nl_author.as_slice());
        bm_put(&mut buf, author_line.as_slice());
        let nl_committer: Vec<u8> = vec![
            10u8,
            99u8,
            111u8,
            109u8,
            109u8,
            105u8,
            116u8,
            116u8,
            101u8,
            114u8,
            32u8,
        ];
        bm_put(&mut buf, nl_committer.as_slice());
        bm_put(&mut buf, author_line.as_slice());
        let blank: Vec<u8> = vec![10u8, 10u8];
        bm_put(&mut buf, blank.as_slice());
        bm_put(&mut buf, self.message.as_slice());
        let payload = bm_to_vec(&buf);
        proof {
            assert(payload@ =~= commit_payload(
                self.spec_parent(),
                self.spec_tree_oid(),
                self.spec_author(),
                self.spec_message(),
            ));
        }
        let tag: Vec<u8> = vec![99u8, 111u8, 109u8, 109u8, 105u8, 116u8];
        Ok(wrap_header(&tag, &payload))
    }
}

/// Re-parsing the serialization template: the type tag up to the first
/// space, the payload-length field up to the first NUL after it — which
/// must be exactly the canonical decimal rendering of the payload's
/// length — then the payload.
pub open spec fn parse_serial(s: Seq<u8>) -> Option<(Seq<u8>, int, Seq<u8>)> {
    match s.index_of_first(32u8) {
        None => None,
        Some(sp) => {
            let rest = s.skip(sp + 1);
            match rest.index_of_first(0u8) {
                None => None,
                Some(nul) => {
                    let tag = s.subrange(0, sp);
                    let len_field = rest.subrange(0, nul);
                    let payload = rest.skip(nul + 1);
                    if len_field == dec_rep(payload.len()) {
                        Some((tag, payload.len() as int, payload))
                    } else {
                        None
                    }
                },
            }
        },
    }
}

/// The index of the first occurrence of `b` in `data` at or after
/// `from`, or `None` when it does not occur there.
fn find_first(data: &[u8], b: u8, from: usize) -> (r: Option<usize>)
    requires
        from <= data@.len(),
    ensures
        match r {
            Some(i) => from <= i < data@.len() && data@[i as int] == b && forall|j: int|
                from <= j < i ==> data@[j] != b,
            None => forall|j: int| from <= j < data@.len() ==> data@[j] != b,
        },
{
    let mut i: usize = from;
    while i < data.len()
        invariant
            from <= i <= data@.len(),
            forall|j: int| from <= j < i ==> data@[j] != b,
        decreases data@.len() - i,
    {
        if data[i] == b {
            return Some(i);
        }
        i = i + 1;
    }
    None
}

/// A witnessed first occurrence pins down the spec-level search.
proof fn lemma_index_of_first_from_witness(s: Seq<u8>, b: u8, i: int)
    requires
        0 <= i < s.len(),
        s[i] == b,
        forall|j: int| 0 <= j < i ==> s[j] != b,
    ensures
        s.index_of_first(b) == Some(i),
{
    s.index_of_first_ensures(b);
    assert(s.contains(b)) by {
        assert(s[i] == b);
    }
    let idx = s.index_of_first(b)->0;
    if idx < i {
        assert(s[idx] != b);
    }
    if idx > i {
        assert(s[i] != b);
    }
}

/// No occurrence anywhere means the spec-level search comes up empty.
proof fn lemma_index_of_first_none(s: Seq<u8>, b: u8)
    requires
        forall|j: int| 0 <= j < s.len() ==> s[j] != b,
    ensures
        s.index_of_first(b) is None,
{
    s.index_of_first_ensures(b);
    if s.contains(b) {
        let j = choose|j: int| 0 <= j < s.len() && s[j] == b;
        assert(s[j] != b);
        assert(false);
    }
}

/// Re-parses serialized object bytes into their type tag, payload
/// length, and payload — exactly where the spec-level parse succeeds.
pub fn parse_object(data: &[u8]) -> (r: Option<(Vec<u8>, usize, Vec<u8>)>)
    ensures
        r is Some <==> parse_serial(data@) is Some,
        r is Some ==> {
            &&& (r->0).0@ == (parse_serial(data@)->0).0
            &&& (r->0).1 as int == (parse_serial(data@)->0).1
            &&& (r->0).2@ == (parse_serial(data@)->0).2
        },
{
    let n = data.len();
    let sp = match find_first(data, 32, 0) {
        Some(i) => i,
        None => {
            proof {
                lemma_index_of_first_none(data@, 32);
            }
            return None;
        },
    };
    proof {
        assert(sp < n);
    }
    proof {
        lemma_index_of_first_from_witness(data@, 32, sp as int);
    }
    let ghost rest = data@.skip(sp + 1);
    let nul = match find_first(data, 0, sp + 1) {
        Some(i) => i,
        None => {
            proof {
                assert forall|j: int| 0 <= j < rest.len() implies rest[j] != 0 by {
                    assert(rest[j] == data@[j + sp + 1]);
                }
                lemma_index_of_first_none(rest, 0);
            }
            return None;
        },
    };
    proof {
        assert(rest[nul - sp - 1] == data@[nul as int]);
        assert forall|j: int| 0 <= j < nul - sp - 1 implies rest[j] != 0 by {
            assert(rest[j] == data@[j + sp + 1]);
        }
        lemma_index_of_first_from_witness(rest, 0, nul - sp - 1);
    }
    let mut tag: Vec<u8> = Vec::new();
    append_range(&mut tag, data, 0, sp);
    let mut len_field: Vec<u8> = Vec::new();
    append_range(&mut len_field, data, sp + 1, nul);
    let mut payload: Vec<u8> = Vec::new();
    append_range(&mut payload, data, nul + 1, data.len());
    proof {
        assert(tag@ =~= data@.subrange(0, sp as int));
        assert(len_field@ =~= rest.subrange(0, nul - sp - 1));
        assert(payload@ =~= rest.skip(nul - sp - 1 + 1));
    }
    let expected = u64_to_dec(payload.len() as u64);
    if bytes_equal(len_field.as_slice(), expected.as_slice()) {
        let n = payload.len();
        Some((tag, n, payload))
    } else {
        None
    }
}

/// Law: the serialization template loses nothing. Re-parsing any
/// serialized object recovers its type tag, its payload length, and its
/// payload exactly, whenever the tag itself holds no space or NUL byte.
pub proof fn lemma_parse_header_round_trip(tag: Seq<u8>, payload: Seq<u8>)
    requires
        tag.len() > 0,
        forall|i: int| 0 <= i < tag.len() ==> #[trigger] tag[i] != 32 && #[trigger] tag[i] != 0,
    ensures
        parse_serial(header_rep(tag, payload)) == Some(
            (tag, payload.len() as int, payload),
        ),
{
    let s = header_rep(tag, payload);
    let d = dec_rep(payload.len());
    crate::numfmt::lemma_dec_rep_digits(payload.len());
    // The first space stands right after the tag.
    assert(s[tag.len() as int] == 32);
    assert(forall|j: int| 0 <= j < tag.len() ==> s[j] == tag[j]);
    s.index_of_first_ensures(32u8);
    assert(s.contains(32u8)) by {
        assert(s[tag.len() as int] == 32);
    }
    let sp = s.index_of_first(32u8)->0;
    assert(s[sp] == 32);
    if sp < tag.len() {
        assert(s[sp] == tag[sp]);
        assert(false);
    }
    if sp > tag.len() {
        assert(s[tag.len() as int] != 32);
        assert(false);
    }
    assert(sp == tag.len());
    assert(s.subrange(0, sp) =~= tag);
    // The first NUL after the space stands right after the digits.
    let rest = s.skip(sp + 1);
    assert(rest =~= d + seq![0u8] + payload);
    assert(rest[d.len() as int] == 0);
    assert(forall|j: int| 0 <= j < d.len() ==> rest[j] == d[j] && rest[j] != 0);
    rest.index_of_first_ensures(0u8);
    assert(rest.contains(0u8)) by {
        assert(rest[d.len() as int] == 0);
    }
    let nul = rest.index_of_first(0u8)->0;
    if nul < d.len() {
        assert(rest[nul] != 0);
        assert(false);
    }
    if nul > d.len() {
        assert(rest[d.len() as int] != 0);
        assert(false);
    }
    assert(nul == d.len());
    assert(rest.subrange(0, nul) =~= d);
    assert(rest.skip(nul + 1) =~= payload);
}

/// Law (round trip): re-parsing a serialized blob recovers its tag, its
/// payload length, and its content bytes.
pub proof fn lemma_blob_round_trip(b: Blob)
    ensures
        b.spec_serial() is Ok,
        parse_serial(b.spec_serial()->Ok_0) == Some(
            (blob_tag(), b.spec_data().len() as int, b.spec_data()),
        ),
{
    lemma_parse_header_round_trip(blob_tag(), b.spec_data());
}

/// Law (round trip): re-parsing a serialized tree recovers its tag, its
/// payload length, and its payload, whenever it serializes at all.
pub proof fn lemma_tree_round_trip(t: Tree)
    requires
        t.spec_serial() is Ok,
    ensures
        parse_serial(t.spec_serial()->Ok_0) == Some(
            (
                tree_tag(),
                tree_payload(t.spec_entries())->Ok_0.len() as int,
                tree_payload(t.spec_entries())->Ok_0,
            ),
        ),
{
    lemma_parse_header_round_trip(tree_tag(), tree_payload(t.spec_entries())->Ok_0);
}

/// Law (round trip): re-parsing a serialized commit recovers its tag, its
/// payload length, and its payload.
pub proof fn lemma_commit_round_trip(c: Commit)
    ensures
        c.spec_serial() is Ok,
        parse_serial(c.spec_serial()->Ok_0) == Some(
            (
                commit_tag(),
                commit_payload(
                    c.spec_parent(),
                    c.spec_tree_oid(),
                    c.spec_author(),
                    c.spec_message(),
                ).len() as int,
                commit_payload(
                    c.spec_parent(),
                    c.spec_tree_oid(),
                    c.spec_author(),
                    c.spec_message(),
                ),
            ),
        ),
{
    lemma_parse_header_round_trip(
        commit_tag(),
        commit_payload(c.spec_parent(), c.spec_tree_oid(), c.spec_author(), c.spec_message()),
    );
}

/// Law: a root commit — one whose parent is absent — serializes with no
/// parent line: its payload steps straight from the tree line to the
/// author line.
pub proof fn lemma_root_commit_no_parent(c: Commit)
    requires
        c.spec_parent() is None,
    ensures
        c.spec_serial() == Ok::<Seq<u8>, HexError>(
            header_rep(
                commit_tag(),
                lit_tree_sp() + c.spec_tree_oid() + lit_nl_author_sp() + author_rep(
                    c.spec_author(),
                ) + lit_nl_committer_sp() + author_rep(c.spec_author()) + lit_blank_line()
                    + c.spec_message(),
            ),
        ),
{
    assert(lit_tree_sp() + c.spec_tree_oid() + Seq::<u8>::empty() =~= lit_tree_sp()
        + c.spec_tree_oid());
}

} // verus!
