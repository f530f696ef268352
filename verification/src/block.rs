//! `HeaderBlock`, `PrimitiveBlock` and `PrimitiveGroup`s.

use vstd::prelude::*;
use vstd::utf8::{decode_utf8, valid_utf8};
use crate::error::{Error, ErrorKind, new_error};
use crate::osmformat;
use crate::osmformat::{SpecHeaderBlock, SpecPrimitiveBlock, SpecPrimitiveGroup, SpecStringTable};
use crate::strutil::{seq_view, try_str_from_utf8};

verus! {

/// A `HeaderBlock`. It contains metadata about following
/// [`PrimitiveBlock`]s.
#[derive(Clone, Debug)]
pub struct HeaderBlock {
    header: osmformat::HeaderBlock,
}

impl View for HeaderBlock {
    type V = SpecHeaderBlock;

    closed spec fn view(&self) -> SpecHeaderBlock {
        self.header@
    }
}

impl HeaderBlock {
    /// Wrap a decoded `osmformat` header message.
    pub fn new(header: osmformat::HeaderBlock) -> (r: HeaderBlock)
        ensures
            r@ == header@,
    {
        HeaderBlock { header }
    }

    /// The (optional) bounding box of the included features, in
    /// nanodegrees.
    pub fn raw_bbox(&self) -> (r: Option<osmformat::HeaderBBox>)
        ensures
            r == self@.bbox,
    {
        self.header.bbox
    }

    /// The features a parser must implement to read the following blocks.
    pub fn required_features(&self) -> (r: &[String])
        ensures
            seq_view(r@) == self@.required_features,
    {
        self.header.required_features.as_slice()
    }

    /// The features a parser may ignore.
    pub fn optional_features(&self) -> (r: &[String])
        ensures
            seq_view(r@) == self@.optional_features,
    {
        self.header.optional_features.as_slice()
    }

    /// The name of the program that generated the file, if set.
    pub fn writing_program(&self) -> (r: Option<&str>)
        ensures
            match r {
                Some(s) => self@.writingprogram == Some(s@),
                None => self@.writingprogram is None,
            },
    {
        match &self.header.writingprogram {
            Some(s) => Some(s.as_str()),
            None => None,
        }
    }

    /// The source of the bounding box, if set.
    pub fn source(&self) -> (r: Option<&str>)
        ensures
            match r {
                Some(s) => self@.source == Some(s@),
                None => self@.source is None,
            },
    {
        match &self.header.source {
            Some(s) => Some(s.as_str()),
            None => None,
        }
    }

    /// The replication timestamp in seconds since the epoch, if set.
    pub fn osmosis_replication_timestamp(&self) -> (r: Option<i64>)
        ensures
            r == self@.osmosis_replication_timestamp,
    {
        self.header.osmosis_replication_timestamp
    }

    /// The replication sequence number, if set.
    pub fn osmosis_replication_sequence_number(&self) -> (r: Option<i64>)
        ensures
            r == self@.osmosis_replication_sequence_number,
    {
        self.header.osmosis_replication_sequence_number
    }

    /// The replication base URL, if set.
    pub fn osmosis_replication_base_url(&self) -> (r: Option<&str>)
        ensures
            match r {
                Some(s) => self@.osmosis_replication_base_url == Some(s@),
                None => self@.osmosis_replication_base_url is None,
            },
    {
        match &self.header.osmosis_replication_base_url {
            Some(s) => Some(s.as_str()),
            None => None,
        }
    }

    /// The wrapped message (the writer encodes it back).
    pub(crate) fn into_message(self) -> (r: osmformat::HeaderBlock)
        ensures
            r@ == self@,
    {
        self.header
    }
}

/// The stringtable of a block: index 0 is reserved blank by convention.
pub open spec fn st_of(b: SpecPrimitiveBlock) -> Seq<Seq<u8>> {
    match b.stringtable {
        Some(st) => st.s,
        None => Seq::<Seq<u8>>::empty(),
    }
}

/// Nanodegrees per raw coordinate unit; 100 when the block does not say.
pub open spec fn granularity_of(b: SpecPrimitiveBlock) -> i32 {
    match b.granularity {
        Some(g) => g,
        None => 100,
    }
}

/// Nanodegree shift added to scaled latitudes; 0 when absent.
pub open spec fn lat_offset_of(b: SpecPrimitiveBlock) -> i64 {
    match b.lat_offset {
        Some(v) => v,
        None => 0,
    }
}

/// Nanodegree shift added to scaled longitudes; 0 when absent.
pub open spec fn lon_offset_of(b: SpecPrimitiveBlock) -> i64 {
    match b.lon_offset {
        Some(v) => v,
        None => 0,
    }
}

/// Milliseconds per raw timestamp unit; 1000 when the block does not say.
pub open spec fn date_granularity_of(b: SpecPrimitiveBlock) -> i32 {
    match b.date_granularity {
        Some(g) => g,
        None => 1000,
    }
}

impl osmformat::PrimitiveBlock {
    /// Nanodegrees per raw coordinate unit (default 100).
    pub fn granularity_or_default(&self) -> (r: i32)
        ensures
            r == granularity_of(self@),
    {
        match self.granularity {
            Some(g) => g,
            None => 100,
        }
    }

    /// Latitude shift in nanodegrees (default 0).
    pub fn lat_offset_or_default(&self) -> (r: i64)
        ensures
            r == lat_offset_of(self@),
    {
        match self.lat_offset {
            Some(v) => v,
            None => 0,
        }
    }

    /// Longitude shift in nanodegrees (default 0).
    pub fn lon_offset_or_default(&self) -> (r: i64)
        ensures
            r == lon_offset_of(self@),
    {
        match self.lon_offset {
            Some(v) => v,
            None => 0,
        }
    }

    /// Milliseconds per raw timestamp unit (default 1000).
    pub fn date_granularity_or_default(&self) -> (r: i32)
        ensures
            r == date_granularity_of(self@),
    {
        match self.date_granularity {
            Some(g) => g,
            None => 1000,
        }
    }
}

/// A `PrimitiveBlock`. It contains a sequence of groups.
#[derive(Debug)]
pub struct PrimitiveBlock {
    block: osmformat::PrimitiveBlock,
    no_strings: Vec<Vec<u8>>,
}

impl PrimitiveBlock {
    /// The fallback empty stringtable slice stays empty.
    #[verifier::type_invariant]
    spec fn no_strings_empty(self) -> bool {
        self.no_strings@.len() == 0
    }
}

impl View for PrimitiveBlock {
    type V = SpecPrimitiveBlock;

    closed spec fn view(&self) -> SpecPrimitiveBlock {
        self.block@
    }
}

impl PrimitiveBlock {
    /// Wrap a decoded `osmformat` primitive block message.
    pub fn new(block: osmformat::PrimitiveBlock) -> (r: PrimitiveBlock)
        ensures
            r@ == block@,
    {
        PrimitiveBlock { block, no_strings: Vec::new() }
    }

    /// The wrapped message.
    pub(crate) fn message(&self) -> (r: &osmformat::PrimitiveBlock)
        ensures
            r@ == self@,
    {
        &self.block
    }

    /// The wrapped message, by value (the writer encodes it back).
    pub(crate) fn into_message(self) -> (r: osmformat::PrimitiveBlock)
        ensures
            r@ == self@,
    {
        self.block
    }

    /// The groups in this block, in order.
    pub fn groups(&self) -> (r: Vec<PrimitiveGroup<'_>>)
        ensures
            r@.len() == self@.primitivegroup.len(),
            forall|i: int|
                0 <= i < r@.len() ==> #[trigger] r@[i]@ == (self@, self@.primitivegroup[i]),
    {
        let n = self.block.primitivegroup.len();
        let mut out: Vec<PrimitiveGroup<'_>> = Vec::new();
        let mut i: usize = 0;
        while i < n
            invariant
                i <= n == self.block.primitivegroup@.len(),
                out@.len() == i,
                forall|k: int|
                    0 <= k < i ==> #[trigger] out@[k]@ == (self@, self@.primitivegroup[k]),
            decreases n - i,
        {
            out.push(PrimitiveGroup { block: &self.block, group: &self.block.primitivegroup[i] });
            i += 1;
        }
        out
    }

    /// The raw stringtable. Elements reference its entries by index; the
    /// entries are UTF-8 by convention but not necessarily valid.
    pub fn raw_stringtable(&self) -> (r: &[Vec<u8>])
        ensures
            seq_view(r@) == st_of(self@),
    {
        proof {
            use_type_invariant(self);
        }
        match &self.block.stringtable {
            Some(st) => {
                let r = st.s.as_slice();
                proof {
                    assert(seq_view(r@) =~= st_of(self@));
                }
                r
            }
            None => {
                let r = self.no_strings.as_slice();
                proof {
                    assert(seq_view(r@) =~= st_of(self@));
                }
                r
            }
        }
    }
}

/// A `PrimitiveGroup` holds elements of one kind inside one block.
#[derive(Clone, Debug)]
pub struct PrimitiveGroup<'a> {
    /// The enclosing block (stringtable, offsets, granularity).
    pub block: &'a osmformat::PrimitiveBlock,
    /// The group's message.
    pub group: &'a osmformat::PrimitiveGroup,
}

impl<'a> View for PrimitiveGroup<'a> {
    type V = (SpecPrimitiveBlock, SpecPrimitiveGroup);

    open spec fn view(&self) -> (SpecPrimitiveBlock, SpecPrimitiveGroup) {
        (self.block@, self.group@)
    }
}

/// Whether a stringtable index resolves to a valid UTF-8 entry.
pub open spec fn resolves(b: SpecPrimitiveBlock, index: int) -> bool {
    &&& 0 <= index < st_of(b).len()
    &&& valid_utf8(st_of(b)[index])
}

/// The string a resolving index denotes.
pub open spec fn resolved(b: SpecPrimitiveBlock, index: int) -> Seq<char> {
    decode_utf8(st_of(b)[index])
}

/// Resolve a stringtable index to a string.
pub fn str_from_stringtable(block: &osmformat::PrimitiveBlock, index: usize) -> (r: Result<
    &str,
    Error,
>)
    ensures
        r is Ok <==> resolves(block@, index as int),
        r matches Ok(s) ==> s@ == resolved(block@, index as int),
        r matches Err(e) ==> e@ == if index >= st_of(block@).len() {
            ErrorKind::StringtableIndexOutOfBounds { index }
        } else {
            ErrorKind::StringtableUtf8 { index }
        },
{
    match &block.stringtable {
        Some(st) => {
            if index < st.s.len() {
                match try_str_from_utf8(st.s[index].as_slice()) {
                    Some(s) => {
                        proof {
                            crate::strutil::lemma_encode_utf8_inverse(s@);
                        }
                        Ok(s)
                    }
                    None => Err(new_error(ErrorKind::StringtableUtf8 { index })),
                }
            } else {
                Err(new_error(ErrorKind::StringtableIndexOutOfBounds { index }))
            }
        }
        None => Err(new_error(ErrorKind::StringtableIndexOutOfBounds { index })),
    }
}

/// Construct a key-value pair from two optional stringtable indices;
/// `None` when either index is absent or does not resolve.
pub fn get_stringtable_key_value<'a>(
    block: &'a osmformat::PrimitiveBlock,
    key_index: Option<usize>,
    value_index: Option<usize>,
) -> (r: Option<(&'a str, &'a str)>)
    ensures
        match r {
            Some(kv) => {
                &&& key_index matches Some(ki) && resolves(block@, ki as int) && kv.0@ == resolved(
                    block@,
                    ki as int,
                )
                &&& value_index matches Some(vi) && resolves(block@, vi as int) && kv.1@
                    == resolved(block@, vi as int)
            },
            None => !{
                &&& key_index matches Some(ki) && resolves(block@, ki as int)
                &&& value_index matches Some(vi) && resolves(block@, vi as int)
            },
        },
{
    match (key_index, value_index) {
        (Some(ki), Some(vi)) => {
            let k_res = str_from_stringtable(block, ki);
            let v_res = str_from_stringtable(block, vi);
            match (k_res, v_res) {
                (Ok(k), Ok(v)) => Some((k, v)),
                _ => None,
            }
        }
        _ => None,
    }
}

} // verus!
