//! The codec catalog.
//!
//! The media backend enumerates its encoders and decoders once at startup;
//! the catalog indexes them under their short and long names, lower-cased,
//! and answers case-insensitive lookups. A codec's identity is its short
//! name: two records with the same (lower-cased) short name describe the
//! same codec.

use vstd::prelude::*;

use crate::text::{lower, to_lowercase};

verus! {

/// The kind of payload a stream or a codec carries.
#[derive(Clone, Copy, Debug, PartialEq, Eq, Structural)]
pub enum MediaKind {
    Video,
    Audio,
    Subtitle,
    Attachment,
    Unknown,
    Data,
}

/// One codec as the backend enumerates it: identifier, short name, long
/// name and the kind of media it handles.
pub struct CodecInfo {
    pub codec_id: u64,
    pub codec_name: String,
    pub codec_long_name: String,
    pub media_type: MediaKind,
}

/// A catalog record: a codec together with whether it can encode and
/// whether it can decode. Names are stored lower-cased.
pub struct CodecInfoExtra {
    pub codec_id: u64,
    pub codec_name: String,
    pub codec_long_name: String,
    pub media_type: MediaKind,
    pub encoder: bool,
    pub decoder: bool,
}

impl Clone for CodecInfoExtra {
    fn clone(&self) -> (r: Self)
        ensures
            r == *self,
    {
        CodecInfoExtra {
            codec_id: self.codec_id,
            codec_name: self.codec_name.clone(),
            codec_long_name: self.codec_long_name.clone(),
            media_type: self.media_type,
            encoder: self.encoder,
            decoder: self.decoder,
        }
    }
}

impl PartialEq for CodecInfoExtra {
    /// Codec identity is the short name.
    fn eq(&self, other: &Self) -> (r: bool) {
        self.codec_name == other.codec_name
    }
}

impl vstd::std_specs::cmp::PartialEqSpecImpl for CodecInfoExtra {
    open spec fn obeys_eq_spec() -> bool {
        true
    }

    open spec fn eq_spec(&self, other: &Self) -> bool {
        self.codec_name@ == other.codec_name@
    }
}

/// Whether `q` is one of the record's two lower-cased names.
pub open spec fn codec_named(c: CodecInfoExtra, q: Seq<char>) -> bool {
    c.codec_name@ == q || c.codec_long_name@ == q
}

/// The record a name-keyed index answers for `q`: the last record among
/// `s` that carries `q` as one of its names, since later insertions under
/// the same name shadow earlier ones.
pub open spec fn find_named(s: Seq<CodecInfoExtra>, q: Seq<char>) -> Option<CodecInfoExtra>
    decreases s.len(),
{
    if s.len() == 0 {
        None
    } else if codec_named(s.last(), q) {
        Some(s.last())
    } else {
        find_named(s.drop_last(), q)
    }
}

/// The read-only index of the codecs the backend offers.
pub struct IndexedCodecs {
    pub encoders: Vec<CodecInfoExtra>,
    pub decoders: Vec<CodecInfoExtra>,
}

/// Whether some codec in the enumeration has `short_lower` as its
/// lower-cased short name.
pub open spec fn listing_has(list: Seq<CodecInfo>, short_lower: Seq<char>) -> bool {
    exists|i: int| 0 <= i < list.len() && lower(list[i].codec_name@) == short_lower
}

/// How one catalog record is derived from one enumerated codec: names are
/// folded to lower case and the two capability flags are filled in.
pub open spec fn records_codec(x: CodecInfoExtra, raw: CodecInfo, enc: bool, dec: bool) -> bool {
    &&& x.codec_id == raw.codec_id
    &&& x.codec_name@ == lower(raw.codec_name@)
    &&& x.codec_long_name@ == lower(raw.codec_long_name@)
    &&& x.media_type == raw.media_type
    &&& x.encoder == enc
    &&& x.decoder == dec
}

/// Whether any codec of `list` has `short_lower` (already lower-cased) as
/// its lower-cased short name.
fn listing_contains(list: &Vec<CodecInfo>, short_lower: &String) -> (r: bool)
    ensures
        r == listing_has(list@, short_lower@),
{
    let n = list.len();
    let mut i: usize = 0;
    while i < n
        invariant
            n == list@.len(),
            i <= n,
            forall|j: int| 0 <= j < i ==> lower(list@[j].codec_name@) != short_lower@,
        decreases n - i,
    {
        let cand = to_lowercase(list[i].codec_name.as_str());
        if cand == *short_lower {
            return true;
        }
        i = i + 1;
    }
    false
}

impl IndexedCodecs {
    /// Builds the catalog from the backend's two enumerations. Every
    /// encoder is recorded as encoding-capable and as decoding-capable
    /// exactly when a codec of the same identity appears among the
    /// decoders; symmetrically for decoders.
    pub fn new(encoders: Vec<CodecInfo>, decoders: Vec<CodecInfo>) -> (r: Self)
        ensures
            r.encoders@.len() == encoders@.len(),
            forall|i: int|
                0 <= i < encoders@.len() ==> records_codec(
                    r.encoders@[i],
                    encoders@[i],
                    true,
                    listing_has(decoders@, lower(encoders@[i].codec_name@)),
                ),
            r.decoders@.len() == decoders@.len(),
            forall|i: int|
                0 <= i < decoders@.len() ==> records_codec(
                    r.decoders@[i],
                    decoders@[i],
                    listing_has(encoders@, lower(decoders@[i].codec_name@)),
                    true,
                ),
    {
        let mut enc_out: Vec<CodecInfoExtra> = Vec::new();
        let n = encoders.len();
        let mut i: usize = 0;
        while i < n
            invariant
                n == encoders@.len(),
                i <= n,
                enc_out@.len() == i,
                forall|j: int|
                    0 <= j < i ==> records_codec(
                        enc_out@[j],
                        encoders@[j],
                        true,
                        listing_has(decoders@, lower(encoders@[j].codec_name@)),
                    ),
            decreases n - i,
        {
            let short = to_lowercase(encoders[i].codec_name.as_str());
            let dec = listing_contains(&decoders, &short);
            enc_out.push(
                CodecInfoExtra {
                    codec_id: encoders[i].codec_id,
                    codec_name: short,
                    codec_long_name: to_lowercase(encoders[i].codec_long_name.as_str()),
                    media_type: encoders[i].media_type,
                    encoder: true,
                    decoder: dec,
                },
            );
            i = i + 1;
        }
        let mut dec_out: Vec<CodecInfoExtra> = Vec::new();
        let m = decoders.len();
        let mut k: usize = 0;
        while k < m
            invariant
                m == decoders@.len(),
                k <= m,
                dec_out@.len() == k,
                forall|j: int|
                    0 <= j < k ==> records_codec(
                        dec_out@[j],
                        decoders@[j],
                        listing_has(encoders@, lower(decoders@[j].codec_name@)),
                        true,
                    ),
            decreases m - k,
        {
            let short = to_lowercase(decoders[k].codec_name.as_str());
            let enc = listing_contains(&encoders, &short);
            dec_out.push(
                CodecInfoExtra {
                    codec_id: decoders[k].codec_id,
                    codec_name: short,
                    codec_long_name: to_lowercase(decoders[k].codec_long_name.as_str()),
                    media_type: decoders[k].media_type,
                    encoder: enc,
                    decoder: true,
                },
            );
            k = k + 1;
        }
        IndexedCodecs { encoders: enc_out, decoders: dec_out }
    }

    /// The decoder-side records, in enumeration order.
    pub open spec fn spec_decoders(&self) -> Seq<CodecInfoExtra> {
        self.decoders@
    }

    /// The encoder-side records, in enumeration order.
    pub open spec fn spec_encoders(&self) -> Seq<CodecInfoExtra> {
        self.encoders@
    }

    /// What a lookup among the decoders answers for name `n`.
    pub open spec fn spec_find_decoder(&self, n: Seq<char>) -> Option<CodecInfoExtra> {
        find_named(self.decoders@, lower(n))
    }

    /// What a lookup among the encoders answers for name `n`.
    pub open spec fn spec_find_encoder(&self, n: Seq<char>) -> Option<CodecInfoExtra> {
        find_named(self.encoders@, lower(n))
    }

    /// What a general lookup answers for name `n`: the decoder index is
    /// preferred, the encoder index is the fallback.
    pub open spec fn spec_find(&self, n: Seq<char>) -> Option<CodecInfoExtra> {
        match self.spec_find_decoder(n) {
            Some(c) => Some(c),
            None => self.spec_find_encoder(n),
        }
    }

    /// Case-insensitive lookup among the decoders.
    pub fn find_decoder_in(&self, name: &str) -> (r: Option<CodecInfoExtra>)
        ensures
            r == self.spec_find_decoder(name@),
    {
        let q = to_lowercase(name);
        scan_named(&self.decoders, &q)
    }

    /// Case-insensitive lookup among the encoders.
    pub fn find_encoder_in(&self, name: &str) -> (r: Option<CodecInfoExtra>)
        ensures
            r == self.spec_find_encoder(name@),
    {
        let q = to_lowercase(name);
        scan_named(&self.encoders, &q)
    }

    /// Case-insensitive lookup, preferring the decoder index and falling
    /// back to the encoder index.
    pub fn find_in(&self, name: &str) -> (r: Option<CodecInfoExtra>)
        ensures
            r == self.spec_find(name@),
    {
        match self.find_decoder_in(name) {
            Some(c) => Some(c),
            None => self.find_encoder_in(name),
        }
    }
}

/// Scans records from the most recently inserted backwards for one that
/// carries the (already lower-cased) name `q`.
fn scan_named(v: &Vec<CodecInfoExtra>, q: &String) -> (r: Option<CodecInfoExtra>)
    ensures
        r == find_named(v@, q@),
{
    let mut i = v.len();
    proof {
        assert(v@.take(i as int) =~= v@);
    }
    while i > 0
        invariant
            i <= v@.len(),
            find_named(v@, q@) == find_named(v@.take(i as int), q@),
        decreases i,
    {
        proof {
            assert(v@.take(i as int).last() == v@[i - 1]);
            assert(v@.take(i as int).drop_last() =~= v@.take(i as int - 1));
        }
        if v[i - 1].codec_name == *q || v[i - 1].codec_long_name == *q {
            return Some(v[i - 1].clone());
        }
        i = i - 1;
    }
    proof {
        assert(v@.take(0) =~= Seq::<CodecInfoExtra>::empty());
    }
    None
}


/// Catalog lookups are case-insensitive: two spellings that fold to the
/// same characters are answered alike.
pub proof fn lemma_find_case_insensitive(cat: IndexedCodecs, n1: Seq<char>, n2: Seq<char>)
    requires
        lower(n1) == lower(n2),
    ensures
        cat.spec_find(n1) == cat.spec_find(n2),
        cat.spec_find_decoder(n1) == cat.spec_find_decoder(n2),
        cat.spec_find_encoder(n1) == cat.spec_find_encoder(n2),
{
}

} // verus!
