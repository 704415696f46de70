//! Routines for parsing and reading structured data from resource forks
//!
//! A resource fork starts with four 32-bit big-endian fields locating the
//! resource-data and resource-map regions. The map holds a type list, one
//! reference list per type, and a name list, all linked by byte offsets
//! relative to different base scopes. Lookup failures during lazy resource
//! materialization degrade to "resource not found" rather than hard errors.

use vstd::prelude::*;
use vstd::math::min;
use crate::binary::read::{
    be16_at, be24_at, be32_at, CheckIndex, ReadArray, ReadCtxt, ReadFrom, ReadScope, ReadUnchecked,
};
use crate::binary::{I16Be, NumFrom, U16Be, U24Be, U32Be, U8};
use crate::error::ParseError;
use crate::macroman::{spec_from_macroman, FromMacRoman};
use crate::FourCC;

verus! {

impl ReadUnchecked for (FourCC, U16Be, U16Be) {
    type Host = (FourCC, u16, u16);

    open spec fn spec_size() -> int {
        8
    }

    open spec fn spec_read(bytes: Seq<u8>) -> (FourCC, u16, u16) {
        (FourCC(be32_at(bytes, 0)), be16_at(bytes, 4), be16_at(bytes, 6))
    }

    proof fn lemma_size() {
    }

    proof fn lemma_read_prefix(b1: Seq<u8>, b2: Seq<u8>) {
        assert forall|i: int| 0 <= i < 8 implies b1[i] == b2[i] by {
            assert(b1.take(8)[i] == b2.take(8)[i]);
        }
    }

    fn size() -> usize {
        8
    }

    fn read_unchecked(ctxt: &mut ReadCtxt<'_>) -> (r: (FourCC, u16, u16)) {
        let ghost d = ctxt.spec_data();
        let ghost at = ctxt.spec_offset();
        let t1: FourCC = <FourCC as ReadUnchecked>::read_unchecked(ctxt);
        let t2: u16 = U16Be::read_unchecked(ctxt);
        let t3: u16 = U16Be::read_unchecked(ctxt);
        proof {
            let rem = d.skip(at);
            assert(be32_at(d.skip(at), 0) == be32_at(rem, 0));
            assert forall|k: int| 0 <= k < 8 implies #[trigger] rem[k] == d[at + k] by {}
            assert(be16_at(d.skip(at + 4), 0) == be16_at(rem, 4));
            assert(be16_at(d.skip(at + 6), 0) == be16_at(rem, 6));
        }
        (t1, t2, t3)
    }
}

impl ReadUnchecked for (I16Be, I16Be, U8) {
    type Host = (i16, i16, u8);

    open spec fn spec_size() -> int {
        5
    }

    open spec fn spec_read(bytes: Seq<u8>) -> (i16, i16, u8) {
        (be16_at(bytes, 0) as i16, be16_at(bytes, 2) as i16, bytes[4])
    }

    proof fn lemma_size() {
    }

    proof fn lemma_read_prefix(b1: Seq<u8>, b2: Seq<u8>) {
        assert forall|i: int| 0 <= i < 5 implies b1[i] == b2[i] by {
            assert(b1.take(5)[i] == b2.take(5)[i]);
        }
    }

    fn size() -> usize {
        5
    }

    fn read_unchecked(ctxt: &mut ReadCtxt<'_>) -> (r: (i16, i16, u8)) {
        let ghost d = ctxt.spec_data();
        let ghost at = ctxt.spec_offset();
        let t1: i16 = I16Be::read_unchecked(ctxt);
        let t2: i16 = I16Be::read_unchecked(ctxt);
        let t3: u8 = U8::read_unchecked(ctxt);
        proof {
            let rem = d.skip(at);
            assert forall|k: int| 0 <= k < 5 implies #[trigger] rem[k] == d[at + k] by {}
            assert(be16_at(d.skip(at + 2), 0) == be16_at(rem, 2));
            assert(d.skip(at + 4)[0] == rem[4]);
        }
        (t1, t2, t3)
    }
}

impl ReadUnchecked for ((I16Be, I16Be, U8), U24Be, U32Be) {
    type Host = ((i16, i16, u8), u32, u32);

    open spec fn spec_size() -> int {
        12
    }

    open spec fn spec_read(bytes: Seq<u8>) -> ((i16, i16, u8), u32, u32) {
        (
            <(I16Be, I16Be, U8) as ReadUnchecked>::spec_read(bytes),
            be24_at(bytes, 5),
            be32_at(bytes, 8),
        )
    }

    proof fn lemma_size() {
    }

    proof fn lemma_read_prefix(b1: Seq<u8>, b2: Seq<u8>) {
        assert forall|i: int| 0 <= i < 12 implies b1[i] == b2[i] by {
            assert(b1.take(12)[i] == b2.take(12)[i]);
        }
        assert(b1.take(5) =~= b2.take(5));
        <(I16Be, I16Be, U8) as ReadUnchecked>::lemma_read_prefix(b1, b2);
    }

    fn size() -> usize {
        12
    }

    fn read_unchecked(ctxt: &mut ReadCtxt<'_>) -> (r: ((i16, i16, u8), u32, u32)) {
        let ghost d = ctxt.spec_data();
        let ghost at = ctxt.spec_offset();
        let t1: (i16, i16, u8) = <(I16Be, I16Be, U8) as ReadUnchecked>::read_unchecked(ctxt);
        let t2: u32 = U24Be::read_unchecked(ctxt);
        let t3: u32 = U32Be::read_unchecked(ctxt);
        proof {
            let rem = d.skip(at);
            assert forall|k: int| 0 <= k < 12 implies #[trigger] rem[k] == d[at + k] by {}
            assert(be24_at(d.skip(at + 5), 0) == be24_at(rem, 5));
            assert(be32_at(d.skip(at + 8), 0) == be32_at(rem, 8));
        }
        (t1, t2, t3)
    }
}

/// An entry of the resource map's type list.
#[derive(Copy, Clone)]
pub struct TypeListItem {
    /// Resource type
    rsrc_type: FourCC,
    /// Number of resources of this type
    num_rsrc: u16,
    /// Offset from the beginning of the resource type list to reference
    /// list for this type
    reference_list_offset: u16,
}

impl TypeListItem {
    /// The resource type of this entry.
    pub closed spec fn spec_rsrc_type(&self) -> FourCC {
        self.rsrc_type
    }

    /// The true number of resources of this type (the stored count plus
    /// one).
    pub closed spec fn spec_num_rsrc(&self) -> u16 {
        self.num_rsrc
    }

    /// The reference list's offset from the start of the type list.
    pub closed spec fn spec_ref_offset(&self) -> u16 {
        self.reference_list_offset
    }

    /// The resource type of this entry.
    pub fn resource_type(&self) -> (r: FourCC)
        ensures
            r == self.spec_rsrc_type(),
    {
        self.rsrc_type
    }
}

/// What decoding a type-list entry yields: the type tag, the stored count
/// corrected by one (wrapping), and the reference-list offset.
pub broadcast proof fn lemma_type_list_item_from(value: (FourCC, u16, u16))
    ensures
        (#[trigger] <TypeListItem as ReadFrom>::spec_from(value)).spec_rsrc_type() == value.0,
        (<TypeListItem as ReadFrom>::spec_from(value)).spec_num_rsrc() == ((value.1 + 1)
            % 0x10000) as u16,
        (<TypeListItem as ReadFrom>::spec_from(value)).spec_ref_offset() == value.2,
{
}

impl ReadFrom for TypeListItem {
    type ReadType = (FourCC, U16Be, U16Be);

    closed spec fn spec_from(value: (FourCC, u16, u16)) -> TypeListItem {
        TypeListItem {
            rsrc_type: value.0,
            // Value is stored minus 1
            num_rsrc: ((value.1 + 1) % 0x10000) as u16,
            reference_list_offset: value.2,
        }
    }

    fn from(value: (FourCC, u16, u16)) -> (r: TypeListItem) {
        let (rsrc_type, num_rsrc, reference_list_offset) = value;
        TypeListItem {
            rsrc_type,
            // Value is stored minus 1
            num_rsrc: num_rsrc.wrapping_add(1),
            reference_list_offset,
        }
    }
}

/// An entry of a type's reference list.
pub struct ReferenceListItem {
    id: i16,
    /// Offset from beginning of resource name list to resource name; a
    /// negative stored value means the resource has no name.
    name_offset: Option<u16>,
    attributes: u8,
    /// Offset from beginning of resource data to data for this resource
    data_offset: u32,  // actually only 3 bytes
}

impl ReferenceListItem {
    /// The resource's id.
    pub closed spec fn spec_id(&self) -> i16 {
        self.id
    }

    /// The resource name's offset from the start of the name list, absent
    /// where the stored offset was negative.
    pub closed spec fn spec_name_offset(&self) -> Option<u16> {
        self.name_offset
    }

    /// The resource's attribute byte.
    pub closed spec fn spec_attributes(&self) -> u8 {
        self.attributes
    }

    /// The resource data's offset from the start of the data region.
    pub closed spec fn spec_data_offset(&self) -> u32 {
        self.data_offset
    }
}

/// What decoding a reference-list entry yields: the id, the name offset
/// where the stored value is non-negative, the attribute byte, and the
/// 24-bit data offset.
pub broadcast proof fn lemma_reference_list_item_from(value: ((i16, i16, u8), u32, u32))
    ensures
        (#[trigger] <ReferenceListItem as ReadFrom>::spec_from(value)).spec_id() == value.0.0,
        (<ReferenceListItem as ReadFrom>::spec_from(value)).spec_name_offset() == (if value.0.1
            >= 0 {
            Some(value.0.1 as u16)
        } else {
            None
        }),
        (<ReferenceListItem as ReadFrom>::spec_from(value)).spec_attributes() == value.0.2,
        (<ReferenceListItem as ReadFrom>::spec_from(value)).spec_data_offset() == value.1,
{
}

impl ReadFrom for ReferenceListItem {
    type ReadType = ((I16Be, I16Be, U8), U24Be, U32Be);

    closed spec fn spec_from(value: ((i16, i16, u8), u32, u32)) -> ReferenceListItem {
        ReferenceListItem {
            id: value.0.0,
            name_offset: if value.0.1 >= 0 {
                Some(value.0.1 as u16)
            } else {
                None
            },
            attributes: value.0.2,
            data_offset: value.1,
        }
    }

    fn from(value: ((i16, i16, u8), u32, u32)) -> (r: ReferenceListItem) {
        let ((id, name_offset, attributes), data_offset, _reserved) = value;
        ReferenceListItem {
            id,
            name_offset: if name_offset >= 0 {
                Some(name_offset as u16)
            } else {
                None
            },
            attributes,
            data_offset,
        }
    }
}

/// The mathematical content of a materialized resource: its id, optional
/// name bytes, attribute byte, and data bytes.
pub struct SpecResource {
    /// The resource's id.
    pub id: i16,
    /// The raw name bytes, if the resource has a name that could be read.
    pub name: Option<Seq<u8>>,
    /// The resource's attribute byte.
    pub attributes: u8,
    /// The resource's data bytes.
    pub data: Seq<u8>,
}

/// The first type-list entry carrying resource type `t`, if any.
pub open spec fn spec_find_type(items: Seq<TypeListItem>, t: FourCC) -> Option<TypeListItem>
    decreases items.len(),
{
    if items.len() == 0 {
        None
    } else if items[0].spec_rsrc_type() == t {
        Some(items[0])
    } else {
        spec_find_type(items.drop_first(), t)
    }
}

/// The first reference-list entry carrying resource id `id`, if any.
pub open spec fn spec_find_ref(items: Seq<ReferenceListItem>, id: i16) -> Option<ReferenceListItem>
    decreases items.len(),
{
    if items.len() == 0 {
        None
    } else if items[0].spec_id() == id {
        Some(items[0])
    } else {
        spec_find_ref(items.drop_first(), id)
    }
}

/// The stored type count plus one: the type list's true entry count.
pub open spec fn spec_type_list_count(ts: Seq<u8>) -> int {
    be16_at(ts, 0) + 1
}

/// The entries of the type list whose bytes are `ts`: the count, then
/// 8-byte entries.
pub open spec fn spec_type_list_items(ts: Seq<u8>) -> Seq<TypeListItem> {
    Seq::new(
        spec_type_list_count(ts) as nat,
        |i: int| <TypeListItem as ReadUnchecked>::spec_read(ts.skip(2 + 8 * i)),
    )
}

/// The entries of `item`'s reference list, located inside the type list's
/// bytes `ts` at the entry's stored offset; `None` where the list does not
/// fit in the remaining bytes.
pub open spec fn spec_ref_list(ts: Seq<u8>, item: TypeListItem) -> Option<Seq<ReferenceListItem>> {
    let off = min(item.spec_ref_offset() as int, ts.len() as int);
    if item.spec_num_rsrc() * 12 <= ts.len() - off {
        Some(
            Seq::new(
                item.spec_num_rsrc() as nat,
                |i: int| <ReferenceListItem as ReadUnchecked>::spec_read(ts.skip(off + 12 * i)),
            ),
        )
    } else {
        None
    }
}

/// The bytes of the length-prefixed resource data at `off` inside the
/// resource-data region `rdata`; `None` on any out-of-range read.
pub open spec fn spec_resource_data(rdata: Seq<u8>, off: u32) -> Option<Seq<u8>> {
    let rem = rdata.skip(min(off as int, rdata.len() as int));
    if rem.len() < 4 {
        None
    } else if 4 + be32_at(rem, 0) <= rem.len() {
        Some(rem.subrange(4, 4 + be32_at(rem, 0)))
    } else {
        None
    }
}

/// The bytes of the length-prefixed resource name at `off` inside the
/// name-list region `ns`; `None` on any out-of-range read.
pub open spec fn spec_resource_name(ns: Seq<u8>, off: u16) -> Option<Seq<u8>> {
    let rem = ns.skip(min(off as int, ns.len() as int));
    if rem.len() < 1 {
        None
    } else if 1 + rem[0] <= rem.len() {
        Some(rem.subrange(1, 1 + rem[0] as int))
    } else {
        None
    }
}

/// The resource that reference-list entry `ritem` materializes to: its data
/// must be readable, while a failed name read only drops the name.
pub open spec fn spec_read_resource(rdata: Seq<u8>, ns: Seq<u8>, ritem: ReferenceListItem) -> Option<
    SpecResource,
> {
    match spec_resource_data(rdata, ritem.spec_data_offset()) {
        None => None,
        Some(data) => Some(
            SpecResource {
                id: ritem.spec_id(),
                name: match ritem.spec_name_offset() {
                    Some(no) => spec_resource_name(ns, no),
                    None => None,
                },
                attributes: ritem.spec_attributes(),
                data,
            },
        ),
    }
}

/// The resource that a `(type, id)` lookup finds: the first type entry for
/// `t`, its reference list, the first entry for `id` in it, and that
/// entry's materialization.
pub open spec fn spec_get_resource(
    items: Seq<TypeListItem>,
    ts: Seq<u8>,
    rdata: Seq<u8>,
    ns: Seq<u8>,
    t: FourCC,
    id: i16,
) -> Option<SpecResource> {
    match spec_find_type(items, t) {
        None => None,
        Some(titem) => match spec_ref_list(ts, titem) {
            None => None,
            Some(ritems) => match spec_find_ref(ritems, id) {
                None => None,
                Some(ritem) => spec_read_resource(rdata, ns, ritem),
            },
        },
    }
}

/// The resource-data region of fork bytes `d`, located by the fork header;
/// empty where the region is out of range (possible only with length 0).
pub open spec fn spec_data_region(d: Seq<u8>) -> Seq<u8> {
    if be32_at(d, 0) + be32_at(d, 8) <= d.len() {
        d.subrange(be32_at(d, 0) as int, be32_at(d, 0) + be32_at(d, 8))
    } else {
        Seq::empty()
    }
}

/// The resource-map region of fork bytes `d`, located by the fork header;
/// empty where the region is out of range (possible only with length 0).
pub open spec fn spec_map_region(d: Seq<u8>) -> Seq<u8> {
    if be32_at(d, 4) + be32_at(d, 12) <= d.len() {
        d.subrange(be32_at(d, 4) as int, be32_at(d, 4) + be32_at(d, 12))
    } else {
        Seq::empty()
    }
}

/// The type list's bytes: the map region from the type-list offset stored
/// relative to the map's start.
pub open spec fn spec_type_scope_of(d: Seq<u8>) -> Seq<u8> {
    let m = spec_map_region(d);
    m.skip(min(be16_at(m, 24) as int, m.len() as int))
}

/// The name list's bytes: the map region from the name-list offset stored
/// relative to the map's start.
pub open spec fn spec_name_scope_of(d: Seq<u8>) -> Seq<u8> {
    let m = spec_map_region(d);
    m.skip(min(be16_at(m, 26) as int, m.len() as int))
}

/// The error that decoding a type list from bytes `ts` produces, if any:
/// too few bytes for the count, a count whose off-by-one correction
/// overflows, or too few bytes for the entries.
pub open spec fn spec_type_list_err(ts: Seq<u8>) -> Option<ParseError> {
    if ts.len() < 2 {
        Some(ParseError::BadEof)
    } else if be16_at(ts, 0) == 0xFFFF {
        Some(ParseError::Overflow)
    } else if spec_type_list_count(ts) * 8 > ts.len() - 2 {
        Some(ParseError::BadEof)
    } else {
        None
    }
}

/// The error that decoding a resource map from bytes `m` produces, if any.
pub open spec fn spec_map_err(m: Seq<u8>) -> Option<ParseError> {
    if m.len() < 28 {
        Some(ParseError::BadEof)
    } else {
        spec_type_list_err(m.skip(min(be16_at(m, 24) as int, m.len() as int)))
    }
}

/// The error that constructing a resource fork from bytes `d` produces, if
/// any: a short header, an out-of-range data or map region, or a bad map.
pub open spec fn spec_fork_err(d: Seq<u8>) -> Option<ParseError> {
    if d.len() < 16 {
        Some(ParseError::BadEof)
    } else if be32_at(d, 8) > 0 && be32_at(d, 0) + be32_at(d, 8) > d.len() {
        Some(
            if be32_at(d, 0) < d.len() {
                ParseError::BadEof
            } else {
                ParseError::BadOffset
            },
        )
    } else if be32_at(d, 12) > 0 && be32_at(d, 4) + be32_at(d, 12) > d.len() {
        Some(
            if be32_at(d, 4) < d.len() {
                ParseError::BadEof
            } else {
                ParseError::BadOffset
            },
        )
    } else {
        spec_map_err(spec_map_region(d))
    }
}

/// The resource map's type list: the list's own scope (reference-list
/// offsets are relative to it) and the decoded entry array.
struct TypeList<'a> {
    scope: ReadScope<'a>,
    list: ReadArray<'a, TypeListItem>,
}

impl<'a> TypeList<'a> {
    /// The type-list invariant: the entry array lies right after the count
    /// inside the list's scope and decodes to the scope's entries.
    spec fn wf(&self) -> bool {
        &&& self.list.wf()
        &&& self.list.spec_len() == spec_type_list_count(self.scope@)
        &&& self.list.spec_len() <= 0xFFFF
        &&& 2 + self.list.spec_len() * 8 <= self.scope@.len()
        &&& self.list.spec_data() == self.scope@.subrange(2, 2 + self.list.spec_len() * 8)
        &&& self.list.items() == spec_type_list_items(self.scope@)
    }

    /// Decodes a type list: a 16-bit count stored as one less than the true
    /// count, then that many 8-byte entries.
    fn read(ctxt: &mut ReadCtxt<'a>) -> (r: Result<TypeList<'a>, ParseError>)
        requires
            old(ctxt).wf(),
            old(ctxt).spec_offset() == 0,
        ensures
            final(ctxt).wf(),
            match r {
                Ok(tl) => {
                    &&& spec_type_list_err(old(ctxt).spec_data()) is None
                    &&& tl.wf()
                    &&& tl.scope@ == old(ctxt).spec_data()
                },
                Err(e) => Some(e) == spec_type_list_err(old(ctxt).spec_data()),
            },
    {
        let ghost ts = old(ctxt).spec_data();
        let scope = ctxt.scope();
        // Value is stored minus 1, so add 1 to it after reading
        let stored: u16 = match ctxt.read_u16be() {
            Ok(v) => v,
            Err(_) => { return Err(ParseError::BadEof) },
        };
        let num_types: u16 = match stored.checked_add(1) {
            Some(v) => v,
            None => { return Err(ParseError::Overflow) },
        };
        let list = match ctxt.read_array::<TypeListItem>(num_types as usize) {
            Ok(l) => l,
            Err(e) => { return Err(e) },
        };
        proof {
            assert(scope@ =~= ts);
            assert(list.spec_data() =~= ts.subrange(2, 2 + list.spec_len() * 8));
            list.lemma_items_from_parent(ts, 2);
            assert forall|i: int| 0 <= i < list.spec_len() implies list.items()[i]
                == spec_type_list_items(ts)[i] by {
                assert(list.spec_item(i) == <TypeListItem as ReadUnchecked>::spec_read(
                    ts.skip(2 + i * 8),
                ));
            }
            assert(list.items() =~= spec_type_list_items(ts));
        }
        Ok(TypeList { scope, list })
    }

    /// Finds the first entry of the given type and resolves its reference
    /// list; `None` where the type is absent or its list is out of range.
    fn find(&self, rsrc_type: FourCC) -> (r: Option<ReferenceList<'a>>)
        requires
            self.wf(),
        ensures
            match spec_find_type(self.list.items(), rsrc_type) {
                None => r is None,
                Some(titem) => match r {
                    Some(rl) => rl.wf() && spec_ref_list(self.scope@, titem) == Some(
                        rl.spec_items(),
                    ),
                    None => spec_ref_list(self.scope@, titem) is None,
                },
            },
    {
        let n: usize = self.list.len();
        let mut i: usize = 0;
        proof {
            assert(self.list.items().skip(0) =~= self.list.items());
        }
        while i < n
            invariant
                self.wf(),
                n == self.list.spec_len(),
                0 <= i <= n,
                spec_find_type(self.list.items(), rsrc_type) == spec_find_type(
                    self.list.items().skip(i as int),
                    rsrc_type,
                ),
            decreases n - i,
        {
            let item = self.list.get_item(i);
            proof {
                assert(self.list.items().skip(i as int)[0] == self.list.items()[i as int]);
            }
            if item.resource_type() == rsrc_type {
                return item.reference_list(self.scope);
            }
            proof {
                assert(self.list.items().skip(i as int).drop_first() =~= self.list.items().skip(
                    i as int + 1,
                ));
            }
            i = i + 1;
        }
        proof {
            assert(self.list.items().skip(n as int) =~= Seq::<TypeListItem>::empty());
        }
        None
    }
}

/// One type's reference list.
struct ReferenceList<'a> {
    list: ReadArray<'a, ReferenceListItem>,
}

impl<'a> ReferenceList<'a> {
    /// The decoded entries.
    spec fn spec_items(&self) -> Seq<ReferenceListItem> {
        self.list.items()
    }

    /// The reference-list invariant: the entry array is well formed.
    spec fn wf(&self) -> bool {
        self.list.wf()
    }

    /// Finds the first entry with the given id.
    fn find(&self, id: i16) -> (r: Option<ReferenceListItem>)
        requires
            self.wf(),
        ensures
            r == spec_find_ref(self.spec_items(), id),
    {
        let n: usize = self.list.len();
        let mut i: usize = 0;
        proof {
            assert(self.spec_items().skip(0) =~= self.spec_items());
        }
        while i < n
            invariant
                self.wf(),
                n == self.list.spec_len(),
                0 <= i <= n,
                spec_find_ref(self.spec_items(), id) == spec_find_ref(
                    self.spec_items().skip(i as int),
                    id,
                ),
            decreases n - i,
        {
            let item = self.list.get_item(i);
            proof {
                assert(self.spec_items().skip(i as int)[0] == self.spec_items()[i as int]);
            }
            if item.id == id {
                return Some(item);
            }
            proof {
                assert(self.spec_items().skip(i as int).drop_first() =~= self.spec_items().skip(
                    i as int + 1,
                ));
            }
            i = i + 1;
        }
        proof {
            assert(self.spec_items().skip(n as int) =~= Seq::<ReferenceListItem>::empty());
        }
        None
    }
}

impl TypeListItem {
    /// Resolves this entry's reference list inside the type list's scope.
    fn reference_list<'a>(&self, scope: ReadScope<'a>) -> (r: Option<ReferenceList<'a>>)
        ensures
            match r {
                Some(rl) => rl.wf() && spec_ref_list(scope@, *self) == Some(rl.spec_items()),
                None => spec_ref_list(scope@, *self) is None,
            },
    {
        let sub = scope.offset(self.reference_list_offset as usize);
        let mut ctxt = sub.ctxt();
        match ctxt.read_array::<ReferenceListItem>(self.num_rsrc as usize) {
            Ok(list) => {
                proof {
                    let off = min(self.spec_ref_offset() as int, scope@.len() as int);
                    let ritems = Seq::new(
                        self.spec_num_rsrc() as nat,
                        |i: int|
                            <ReferenceListItem as ReadUnchecked>::spec_read(
                                scope@.skip(off + 12 * i),
                            ),
                    );
                    assert(list.spec_data() =~= scope@.subrange(off, off + list.spec_len() * 12));
                    list.lemma_items_from_parent(scope@, off);
                    assert(list.items() =~= ritems);
                    assert(spec_ref_list(scope@, *self) == Some(ritems));
                }
                Some(ReferenceList { list })
            },
            Err(_) => None,
        }
    }
}

/// The decoded resource map: the runtime attributes, the type list, and
/// the name list's scope.
struct ResourceMap<'a> {
    attributes: u16,
    type_list: TypeList<'a>,
    name_list_scope: ReadScope<'a>,
}

/// Where `map` records exactly the map encoded in bytes `m`: both
/// sub-structures are located by offset from the map's own start.
spec fn map_matches(map: ResourceMap<'_>, m: Seq<u8>) -> bool {
    &&& map.attributes == be16_at(m, 22)
    &&& map.type_list.wf()
    &&& map.type_list.scope@ == m.skip(min(be16_at(m, 24) as int, m.len() as int))
    &&& map.name_list_scope@ == m.skip(min(be16_at(m, 26) as int, m.len() as int))
}

impl<'a> ResourceMap<'a> {
    /// Decodes the resource map: 22 reserved bytes, the attributes, then
    /// the type-list and name-list offsets, both relative to the map's
    /// start rather than the cursor's position.
    fn read(ctxt: &mut ReadCtxt<'a>) -> (r: Result<ResourceMap<'a>, ParseError>)
        requires
            old(ctxt).wf(),
            old(ctxt).spec_offset() == 0,
        ensures
            final(ctxt).wf(),
            match r {
                Ok(map) => spec_map_err(old(ctxt).spec_data()) is None && map_matches(
                    map,
                    old(ctxt).spec_data(),
                ),
                Err(e) => Some(e) == spec_map_err(old(ctxt).spec_data()),
            },
    {
        let ghost m = old(ctxt).spec_data();
        // Skip the first 22 bytes; these are all set to 0 and are used by
        // the Resource Manager for storing data at runtime.
        let scope = ctxt.scope();
        proof {
            assert(scope@ =~= m);
        }
        let _ = match ctxt.read_slice(22) {
            Ok(v) => v,
            Err(_) => { return Err(ParseError::BadEof) },
        };
        let attributes: u16 = match ctxt.read_u16be() {
            Ok(v) => v,
            Err(_) => { return Err(ParseError::BadEof) },
        };
        let rsrc_type_list_offset: u16 = match ctxt.read_u16be() {
            Ok(v) => v,
            Err(_) => { return Err(ParseError::BadEof) },
        };
        let rsrc_name_list_offset: u16 = match ctxt.read_u16be() {
            Ok(v) => v,
            Err(_) => { return Err(ParseError::BadEof) },
        };

        let ts_scope = scope.offset(rsrc_type_list_offset as usize);
        let mut ts_ctxt = ts_scope.ctxt();
        let type_list = match TypeList::read(&mut ts_ctxt) {
            Ok(t) => t,
            Err(e) => { return Err(e) },
        };
        let name_list_scope = scope.offset(rsrc_name_list_offset as usize);

        Ok(ResourceMap { attributes, type_list, name_list_scope })
    }
}

/// A parsed resource fork.
pub struct ResourceFork<'a> {
    rsrc_data: &'a [u8],
    map: ResourceMap<'a>,
}

/// An individual resource from a resource fork.
pub struct Resource<'a> {
    id: i16,
    name: Option<&'a [u8]>,
    attributes: u8,
    data: &'a [u8],
}

impl<'a> View for Resource<'a> {
    type V = SpecResource;

    closed spec fn view(&self) -> SpecResource {
        SpecResource {
            id: self.id,
            name: match self.name {
                Some(n) => Some(n@),
                None => None,
            },
            attributes: self.attributes,
            data: self.data@,
        }
    }
}

impl<'a> ResourceFork<'a> {
    /// The bytes of the resource-data region.
    pub closed spec fn spec_rsrc_data(&self) -> Seq<u8> {
        self.rsrc_data@
    }

    /// The map's runtime attributes.
    pub closed spec fn spec_attributes(&self) -> u16 {
        self.map.attributes
    }

    /// The decoded type-list entries.
    pub closed spec fn spec_type_items(&self) -> Seq<TypeListItem> {
        self.map.type_list.list.items()
    }

    /// The type list's bytes, the base for reference-list offsets.
    pub closed spec fn spec_type_scope(&self) -> Seq<u8> {
        self.map.type_list.scope@
    }

    /// The name list's bytes, the base for name offsets.
    pub closed spec fn spec_name_scope(&self) -> Seq<u8> {
        self.map.name_list_scope@
    }

    /// The fork invariant: the type list is well formed.
    pub closed spec fn wf(&self) -> bool {
        self.map.type_list.wf()
    }

    /// Parses a resource fork: the four header fields locate the data and
    /// map regions, carved as exact sub-ranges, and the map is decoded from
    /// its own region.
    pub fn new(data: &[u8]) -> (r: Result<ResourceFork<'_>, ParseError>)
        ensures
            match r {
                Ok(fork) => {
                    &&& spec_fork_err(data@) is None
                    &&& fork.wf()
                    &&& fork.spec_rsrc_data() == spec_data_region(data@)
                    &&& fork.spec_attributes() == be16_at(spec_map_region(data@), 22)
                    &&& fork.spec_type_scope() == spec_type_scope_of(data@)
                    &&& fork.spec_name_scope() == spec_name_scope_of(data@)
                    &&& fork.spec_type_items() == spec_type_list_items(spec_type_scope_of(data@))
                },
                Err(e) => Some(e) == spec_fork_err(data@),
            },
    {
        let scope = ReadScope::new(data);
        let mut ctxt = scope.ctxt();
        let data_offset: u32 = match ctxt.read_u32be() {
            Ok(v) => v,
            Err(_) => { return Err(ParseError::BadEof) },
        };
        let map_offset: u32 = match ctxt.read_u32be() {
            Ok(v) => v,
            Err(_) => { return Err(ParseError::BadEof) },
        };
        let data_len: u32 = match ctxt.read_u32be() {
            Ok(v) => v,
            Err(_) => { return Err(ParseError::BadEof) },
        };
        let map_len: u32 = match ctxt.read_u32be() {
            Ok(v) => v,
            Err(_) => { return Err(ParseError::BadEof) },
        };

        let rsrc_data = match scope.offset_length(
            usize::num_from(data_offset),
            usize::num_from(data_len),
        ) {
            Ok(s) => s,
            Err(e) => { return Err(e) },
        };
        let map_data = match scope.offset_length(
            usize::num_from(map_offset),
            usize::num_from(map_len),
        ) {
            Ok(s) => s,
            Err(e) => { return Err(e) },
        };
        proof {
            assert(rsrc_data@ =~= spec_data_region(data@));
            assert(map_data@ =~= spec_map_region(data@));
        }
        let mut map_ctxt = map_data.ctxt();
        let rsrc_map = match ResourceMap::read(&mut map_ctxt) {
            Ok(m) => m,
            Err(e) => { return Err(e) },
        };

        Ok(ResourceFork { rsrc_data: rsrc_data.data(), map: rsrc_map })
    }

    /// Looks a resource up by type and id: a linear scan of the type list,
    /// then of that type's reference list, then lazy materialization.
    /// Absence at any step degrades to `None`.
    pub fn get_resource(&self, rsrc_type: FourCC, rsrc_id: i16) -> (r: Option<Resource<'_>>)
        requires
            self.wf(),
        ensures
            match r {
                Some(res) => spec_get_resource(
                    self.spec_type_items(),
                    self.spec_type_scope(),
                    self.spec_rsrc_data(),
                    self.spec_name_scope(),
                    rsrc_type,
                    rsrc_id,
                ) == Some(res@),
                None => spec_get_resource(
                    self.spec_type_items(),
                    self.spec_type_scope(),
                    self.spec_rsrc_data(),
                    self.spec_name_scope(),
                    rsrc_type,
                    rsrc_id,
                ) is None,
            },
    {
        let reference_list = match self.map.type_list.find(rsrc_type) {
            Some(rl) => rl,
            None => { return None },
        };
        let item = match reference_list.find(rsrc_id) {
            Some(it) => it,
            None => { return None },
        };
        self.read_resource(&item)
    }

    /// Materializes the resource that a reference-list entry points at.
    /// Unreadable data is fatal for the entry; an unreadable name only
    /// drops the name.
    fn read_resource(&self, item: &ReferenceListItem) -> (r: Option<Resource<'a>>)
        ensures
            match r {
                Some(res) => spec_read_resource(
                    self.spec_rsrc_data(),
                    self.spec_name_scope(),
                    *item,
                ) == Some(res@),
                None => spec_read_resource(
                    self.spec_rsrc_data(),
                    self.spec_name_scope(),
                    *item,
                ) is None,
            },
    {
        let data = match self.read_resource_data(item.data_offset) {
            Some(d) => d,
            None => { return None },
        };
        let name = match item.name_offset {
            Some(offset) => self.read_name(offset),
            None => None,
        };

        Some(Resource { id: item.id, name, attributes: item.attributes, data })
    }

    /// Reads the length-prefixed resource data at `offset` in the data
    /// region.
    fn read_resource_data(&self, offset: u32) -> (r: Option<&'a [u8]>)
        ensures
            match r {
                Some(s) => spec_resource_data(self.spec_rsrc_data(), offset) == Some(s@),
                None => spec_resource_data(self.spec_rsrc_data(), offset) is None,
            },
    {
        let mut ctxt = ReadScope::new(self.rsrc_data).offset(usize::num_from(offset)).ctxt();
        let len: u32 = match ctxt.read_u32be() {
            Ok(v) => v,
            Err(_) => { return None },
        };
        match ctxt.read_slice(usize::num_from(len)) {
            Ok(s) => {
                proof {
                    let rem = self.spec_rsrc_data().skip(
                        min(offset as int, self.spec_rsrc_data().len() as int),
                    );
                    assert(s@ =~= rem.subrange(4, 4 + be32_at(rem, 0)));
                }
                Some(s)
            },
            Err(_) => None,
        }
    }

    /// Reads the length-prefixed resource name at `offset` in the name
    /// list.
    fn read_name(&self, offset: u16) -> (r: Option<&'a [u8]>)
        ensures
            match r {
                Some(s) => spec_resource_name(self.spec_name_scope(), offset) == Some(s@),
                None => spec_resource_name(self.spec_name_scope(), offset) is None,
            },
    {
        let mut ctxt = self.map.name_list_scope.offset(offset as usize).ctxt();
        let len: u8 = match ctxt.read_u8() {
            Ok(v) => v,
            Err(_) => { return None },
        };
        match ctxt.read_slice(len as usize) {
            Ok(s) => {
                proof {
                    let rem = self.spec_name_scope().skip(
                        min(offset as int, self.spec_name_scope().len() as int),
                    );
                    assert(s@ =~= rem.subrange(1, 1 + rem[0] as int));
                }
                Some(s)
            },
            Err(_) => None,
        }
    }
}

impl Resource<'_> {
    /// The resource's id.
    pub fn id(&self) -> (r: i16)
        ensures
            r == self@.id,
    {
        self.id
    }

    /// The name associated with this resource decoded from Mac OS Roman,
    /// if present.
    pub fn name(&self) -> (r: Option<String>)
        ensures
            match r {
                Some(s) => self@.name matches Some(n) && s@ == spec_from_macroman(n),
                None => self@.name is None,
            },
    {
        match self.name {
            Some(n) => Some(String::from_macroman(n)),
            None => None,
        }
    }

    /// The raw bytes of the resource name.
    ///
    /// The raw name can't be longer than 255 bytes as the length is
    /// specified with a byte.
    pub fn name_bytes(&self) -> (r: Option<&[u8]>)
        ensures
            match r {
                Some(s) => self@.name == Some(s@),
                None => self@.name is None,
            },
    {
        self.name
    }

    /// The resource's attribute byte.
    pub fn attributes(&self) -> (r: u8)
        ensures
            r == self@.attributes,
    {
        self.attributes
    }

    /// The resource's data bytes.
    pub fn data(&self) -> (r: &[u8])
        ensures
            r@ == self@.data,
    {
        self.data
    }
}

/// An iterator over the resource types in a resource fork.
///
/// Typically created with [`ResourceFork::resource_types`].
pub struct ResourceTypes<'a, 'rsrc> {
    fork: &'a ResourceFork<'rsrc>,
    type_index: u16,
}

/// An iterator over the resources of a given type.
///
/// Typically created with [`ResourceFork::resources`].
pub struct Resources<'a, 'rsrc> {
    fork: &'a ResourceFork<'rsrc>,
    item: TypeListItem,
    rsrc_index: u16,
}

impl<'a> ResourceFork<'a> {
    /// An iterator over the fork's type-list entries.
    pub fn resource_types(&self) -> (r: ResourceTypes<'_, 'a>)
        requires
            self.wf(),
        ensures
            r.wf(),
            r.spec_items() == self.spec_type_items(),
            r.spec_index() == 0,
    {
        ResourceTypes { fork: self, type_index: 0 }
    }

    /// An iterator over the resources of the type that `item` names.
    pub fn resources<'b>(&'b self, item: TypeListItem) -> (r: Resources<'b, 'a>)
        requires
            self.wf(),
        ensures
            r.wf(),
            r.spec_item() == item,
            r.spec_index() == 0,
            r.spec_type_scope() == self.spec_type_scope(),
            r.spec_rsrc_data() == self.spec_rsrc_data(),
            r.spec_name_scope() == self.spec_name_scope(),
    {
        Resources { fork: self, item, rsrc_index: 0 }
    }
}

impl<'a, 'rsrc> ResourceTypes<'a, 'rsrc> {
    /// The type-list entries being enumerated.
    pub closed spec fn spec_items(&self) -> Seq<TypeListItem> {
        self.fork.spec_type_items()
    }

    /// The index of the next entry to yield.
    pub closed spec fn spec_index(&self) -> int {
        self.type_index as int
    }

    /// The iterator invariant: the position never passes the entry count,
    /// which fits in 16 bits.
    pub closed spec fn wf(&self) -> bool {
        &&& self.fork.wf()
        &&& 0 <= self.spec_index() <= self.spec_items().len()
        &&& self.spec_items().len() <= 0xFFFF
    }

    /// Yields the next type-list entry, or `None` at exhaustion.
    pub fn next(&mut self) -> (r: Option<TypeListItem>)
        requires
            old(self).wf(),
        ensures
            final(self).wf(),
            final(self).spec_items() == old(self).spec_items(),
            old(self).spec_index() < old(self).spec_items().len() ==> {
                &&& r == Some(old(self).spec_items()[old(self).spec_index()])
                &&& final(self).spec_index() == old(self).spec_index() + 1
            },
            old(self).spec_index() >= old(self).spec_items().len() ==> {
                &&& r is None
                &&& final(self).spec_index() == old(self).spec_index()
            },
    {
        // Get the current type list
        let list = &self.fork.map.type_list.list;
        match list.check_index(self.type_index as usize) {
            Ok(()) => {
                let type_list_item = list.get_item(self.type_index as usize);
                self.type_index = self.type_index + 1;
                Some(type_list_item)
            },
            Err(_) => None,
        }
    }

    /// The exact number of entries that remain, from the live list length.
    pub fn size_hint(&self) -> (r: (usize, Option<usize>))
        requires
            self.wf(),
        ensures
            r.0 == self.spec_items().len() - self.spec_index(),
            r.1 == Some((self.spec_items().len() - self.spec_index()) as usize),
    {
        let num_remaining: usize = self.fork.map.type_list.list.len() - self.type_index as usize;
        (num_remaining, Some(num_remaining))
    }
}

impl<'a, 'rsrc> Resources<'a, 'rsrc> {
    /// The type-list entry whose resources are enumerated.
    pub closed spec fn spec_item(&self) -> TypeListItem {
        self.item
    }

    /// The index of the next resource to yield.
    pub closed spec fn spec_index(&self) -> int {
        self.rsrc_index as int
    }

    /// The type list's bytes, against which the reference list is resolved
    /// anew on every step.
    pub closed spec fn spec_type_scope(&self) -> Seq<u8> {
        self.fork.spec_type_scope()
    }

    /// The resource-data region's bytes.
    pub closed spec fn spec_rsrc_data(&self) -> Seq<u8> {
        self.fork.spec_rsrc_data()
    }

    /// The name list's bytes.
    pub closed spec fn spec_name_scope(&self) -> Seq<u8> {
        self.fork.spec_name_scope()
    }

    /// The iterator invariant: the position never passes the reference
    /// list's entry count.
    pub closed spec fn wf(&self) -> bool {
        &&& self.fork.wf()
        &&& match spec_ref_list(self.spec_type_scope(), self.spec_item()) {
            Some(ritems) => self.spec_index() <= ritems.len(),
            None => true,
        }
    }

    /// Resolves the reference list for this iterator's type entry.
    fn reference_list(&self) -> (r: Option<ReferenceList<'rsrc>>)
        ensures
            match r {
                Some(rl) => rl.wf() && spec_ref_list(self.spec_type_scope(), self.spec_item())
                    == Some(rl.spec_items()),
                None => spec_ref_list(self.spec_type_scope(), self.spec_item()) is None,
            },
    {
        self.item.reference_list(self.fork.map.type_list.scope)
    }

    /// Yields the next resource of the type. The reference list is
    /// re-resolved each step; a resource whose data cannot be read ends
    /// the iteration.
    pub fn next(&mut self) -> (r: Option<Resource<'rsrc>>)
        requires
            old(self).wf(),
        ensures
            final(self).wf(),
            final(self).spec_item() == old(self).spec_item(),
            final(self).spec_type_scope() == old(self).spec_type_scope(),
            final(self).spec_rsrc_data() == old(self).spec_rsrc_data(),
            final(self).spec_name_scope() == old(self).spec_name_scope(),
            match spec_ref_list(old(self).spec_type_scope(), old(self).spec_item()) {
                None => r is None && final(self).spec_index() == old(self).spec_index(),
                Some(ritems) => {
                    if old(self).spec_index() < ritems.len() {
                        match spec_read_resource(
                            old(self).spec_rsrc_data(),
                            old(self).spec_name_scope(),
                            ritems[old(self).spec_index()],
                        ) {
                            Some(sr) => {
                                &&& r matches Some(res)
                                &&& res@ == sr
                                &&& final(self).spec_index() == old(self).spec_index() + 1
                            },
                            None => {
                                &&& r is None
                                &&& final(self).spec_index() == old(self).spec_index()
                            },
                        }
                    } else {
                        r is None && final(self).spec_index() == old(self).spec_index()
                    }
                },
            },
    {
        let reference_list = match self.reference_list() {
            Some(rl) => rl,
            None => { return None },
        };
        let ghost ritems = reference_list.spec_items();
        proof {
            assert(spec_ref_list(self.spec_type_scope(), self.spec_item()) == Some(ritems));
            assert(ritems == reference_list.list.items());
            assert(reference_list.list.items().len() == reference_list.list.spec_len() as nat);
            assert(ritems.len() == reference_list.list.spec_len());
        }
        match reference_list.list.check_index(self.rsrc_index as usize) {
            Ok(()) => {
                let reference_list_item = reference_list.list.get_item(self.rsrc_index as usize);
                proof {
                    assert(reference_list_item == ritems[self.rsrc_index as int]);
                }
                let resource = match self.fork.read_resource(&reference_list_item) {
                    Some(res) => res,
                    None => { return None },
                };
                self.rsrc_index = self.rsrc_index + 1;
                Some(resource)
            },
            Err(_) => {
                proof {
                    assert(self.rsrc_index as int >= ritems.len());
                }
                None
            },
        }
    }

    /// How many resources remain, from the live reference-list length, or
    /// no upper bound where the reference list cannot be resolved.
    pub fn size_hint(&self) -> (r: (usize, Option<usize>))
        requires
            self.wf(),
        ensures
            match spec_ref_list(self.spec_type_scope(), self.spec_item()) {
                Some(ritems) => r.0 == ritems.len() - self.spec_index() && r.1 == Some(
                    (ritems.len() - self.spec_index()) as usize,
                ),
                None => r == (0usize, None::<usize>),
            },
    {
        match self.reference_list() {
            Some(reference_list) => {
                let num_remaining: usize = reference_list.list.len() - self.rsrc_index as usize;
                (num_remaining, Some(num_remaining))
            },
            None => (0, None),
        }
    }
}

} // verus!
