//! The declarative media policy.
//!
//! A policy lists the container formats the user accepts, the codecs the
//! user accepts, and an ordered set of stream requirements. Requirements
//! are totally ordered so that more specific ones (language given) come
//! before less specific ones (language absent); when one stream matches
//! several requirements, the earliest — most specific — one claims it.

use vstd::prelude::*;

use crate::codec::{CodecInfoExtra, IndexedCodecs};
use crate::text::{chars_cmp, is_lower, lower, lemma_chars_cmp_antisym, lemma_chars_cmp_equal,
    lemma_chars_cmp_trans, str_cmp, to_lowercase};

verus! {

/// An audio requirement: any audio stream, or audio in one language.
pub struct RequiredAudio {
    pub language: Option<String>,
}

/// A subtitle requirement: any subtitle stream, or subtitles in one
/// language.
pub struct RequiredSubtitle {
    pub language: Option<String>,
}

/// What kind of stream a requirement speaks about.
pub enum RequirementType {
    Video,
    Audio(RequiredAudio),
    Subtitle(RequiredSubtitle),
}

/// How strongly the matched streams are required to comply.
#[derive(Clone, Copy, Debug, PartialEq, Eq, Structural)]
pub enum RequirementLevel {
    All,
    AtLeastOne,
    WithOther,
    Ignore,
    Decline,
}

/// One stream requirement: what it matches and how strongly it binds.
pub struct Requirement {
    pub what: RequirementType,
    pub level: RequirementLevel,
}

impl Clone for RequiredAudio {
    fn clone(&self) -> (r: Self)
        ensures
            r == *self,
    {
        RequiredAudio {
            language: match &self.language {
                Some(s) => Some(s.clone()),
                None => None,
            },
        }
    }
}

impl Clone for RequiredSubtitle {
    fn clone(&self) -> (r: Self)
        ensures
            r == *self,
    {
        RequiredSubtitle {
            language: match &self.language {
                Some(s) => Some(s.clone()),
                None => None,
            },
        }
    }
}

impl Clone for RequirementType {
    fn clone(&self) -> (r: Self)
        ensures
            r == *self,
    {
        match self {
            RequirementType::Video => RequirementType::Video,
            RequirementType::Audio(a) => RequirementType::Audio(a.clone()),
            RequirementType::Subtitle(s) => RequirementType::Subtitle(s.clone()),
        }
    }
}

impl Clone for Requirement {
    fn clone(&self) -> (r: Self)
        ensures
            r == *self,
    {
        Requirement { what: self.what.clone(), level: self.level }
    }
}

/// The character sequence of an optional language tag.
pub open spec fn opt_view(o: Option<String>) -> Option<Seq<char>> {
    match o {
        Some(s) => Some(s@),
        None => None,
    }
}

/// Priority order on optional language tags: a given language sorts
/// before an absent one, so that the specific requirement is consulted
/// first; two given languages compare lexicographically.
pub open spec fn spec_prioritize(a: Option<Seq<char>>, b: Option<Seq<char>>) -> core::cmp::Ordering {
    match (a, b) {
        (Some(x), Some(y)) => chars_cmp(x, y),
        (Some(x), None) => core::cmp::Ordering::Less,
        (None, Some(y)) => core::cmp::Ordering::Greater,
        (None, None) => core::cmp::Ordering::Equal,
    }
}

/// Priority order on optional values, specific before unspecific: `Some`
/// sorts before `None`, two `Some` compare by their content.
pub fn prioritize(lh: &Option<String>, rh: &Option<String>) -> (o: core::cmp::Ordering)
    ensures
        o == spec_prioritize(opt_view(*lh), opt_view(*rh)),
{
    match (lh, rh) {
        (Some(x), Some(y)) => str_cmp(x.as_str(), y.as_str()),
        (Some(_), None) => core::cmp::Ordering::Less,
        (None, Some(_)) => core::cmp::Ordering::Greater,
        (None, None) => core::cmp::Ordering::Equal,
    }
}

/// Rank of a requirement kind: video, then audio, then subtitles.
pub open spec fn type_rank(t: RequirementType) -> int {
    match t {
        RequirementType::Video => 0,
        RequirementType::Audio(_) => 1,
        RequirementType::Subtitle(_) => 2,
    }
}

/// Rank of a requirement level, in declaration order.
pub open spec fn level_rank(l: RequirementLevel) -> int {
    match l {
        RequirementLevel::All => 0,
        RequirementLevel::AtLeastOne => 1,
        RequirementLevel::WithOther => 2,
        RequirementLevel::Ignore => 3,
        RequirementLevel::Decline => 4,
    }
}

/// Three-way comparison of two integers.
pub open spec fn int_cmp(a: int, b: int) -> core::cmp::Ordering {
    if a < b {
        core::cmp::Ordering::Less
    } else if a > b {
        core::cmp::Ordering::Greater
    } else {
        core::cmp::Ordering::Equal
    }
}

/// The language tag of a requirement kind, where it has one.
pub open spec fn type_language(t: RequirementType) -> Option<Seq<char>> {
    match t {
        RequirementType::Video => None,
        RequirementType::Audio(a) => opt_view(a.language),
        RequirementType::Subtitle(s) => opt_view(s.language),
    }
}

/// Order on requirement kinds: by rank, then — within one kind — by
/// language priority (specific first).
pub open spec fn req_type_cmp(a: RequirementType, b: RequirementType) -> core::cmp::Ordering {
    if type_rank(a) != type_rank(b) {
        int_cmp(type_rank(a), type_rank(b))
    } else {
        spec_prioritize(type_language(a), type_language(b))
    }
}

/// The total priority order on requirements: by kind, then by level.
/// Two requirements comparing `Equal` are the same requirement up to the
/// spelling of their strings.
pub open spec fn req_cmp(a: Requirement, b: Requirement) -> core::cmp::Ordering {
    if req_type_cmp(a.what, b.what) is Equal {
        int_cmp(level_rank(a.level), level_rank(b.level))
    } else {
        req_type_cmp(a.what, b.what)
    }
}

/// `req_cmp` is antisymmetric: swapping the arguments swaps the verdict.
pub proof fn lemma_req_cmp_antisym(a: Requirement, b: Requirement)
    ensures
        req_cmp(a, b) is Less <==> req_cmp(b, a) is Greater,
        req_cmp(a, b) is Equal <==> req_cmp(b, a) is Equal,
{
    match (type_language(a.what), type_language(b.what)) {
        (Some(x), Some(y)) => {
            lemma_chars_cmp_antisym(x, y);
            lemma_chars_cmp_antisym(y, x);
            lemma_chars_cmp_equal(x, y);
            lemma_chars_cmp_equal(y, x);
        },
        _ => {},
    }
}

/// `Less` verdicts of `req_cmp` chain transitively.
pub proof fn lemma_req_cmp_trans(a: Requirement, b: Requirement, c: Requirement)
    requires
        req_cmp(a, b) is Less,
        req_cmp(b, c) is Less,
    ensures
        req_cmp(a, c) is Less,
{
    match (type_language(a.what), type_language(b.what), type_language(c.what)) {
        (Some(x), Some(y), Some(z)) => {
            lemma_chars_cmp_equal(x, y);
            lemma_chars_cmp_equal(y, z);
            lemma_chars_cmp_equal(x, z);
            if chars_cmp(x, y) is Less && chars_cmp(y, z) is Less {
                lemma_chars_cmp_trans(x, y, z);
            }
        },
        (Some(x), Some(y), None) => {
            lemma_chars_cmp_equal(x, y);
        },
        (None, Some(y), Some(z)) => {
            lemma_chars_cmp_equal(y, z);
        },
        (Some(x), None, Some(z)) => {
            lemma_chars_cmp_equal(x, z);
        },
        _ => {},
    }
}

/// Executable comparison of requirement levels by rank.
fn level_cmp(a: RequirementLevel, b: RequirementLevel) -> (o: core::cmp::Ordering)
    ensures
        o == int_cmp(level_rank(a), level_rank(b)),
{
    let ra = match a {
        RequirementLevel::All => 0u8,
        RequirementLevel::AtLeastOne => 1u8,
        RequirementLevel::WithOther => 2u8,
        RequirementLevel::Ignore => 3u8,
        RequirementLevel::Decline => 4u8,
    };
    let rb = match b {
        RequirementLevel::All => 0u8,
        RequirementLevel::AtLeastOne => 1u8,
        RequirementLevel::WithOther => 2u8,
        RequirementLevel::Ignore => 3u8,
        RequirementLevel::Decline => 4u8,
    };
    if ra < rb {
        core::cmp::Ordering::Less
    } else if ra > rb {
        core::cmp::Ordering::Greater
    } else {
        core::cmp::Ordering::Equal
    }
}

/// Executable comparison of two requirements in the priority order.
pub fn req_cmp_exec(a: &Requirement, b: &Requirement) -> (o: core::cmp::Ordering)
    ensures
        o == req_cmp(*a, *b),
{
    let ra = match &a.what {
        RequirementType::Video => 0u8,
        RequirementType::Audio(_) => 1u8,
        RequirementType::Subtitle(_) => 2u8,
    };
    let rb = match &b.what {
        RequirementType::Video => 0u8,
        RequirementType::Audio(_) => 1u8,
        RequirementType::Subtitle(_) => 2u8,
    };
    if ra < rb {
        return core::cmp::Ordering::Less;
    }
    if ra > rb {
        return core::cmp::Ordering::Greater;
    }
    let la: &Option<String> = match &a.what {
        RequirementType::Video => &None,
        RequirementType::Audio(x) => &x.language,
        RequirementType::Subtitle(x) => &x.language,
    };
    let lb: &Option<String> = match &b.what {
        RequirementType::Video => &None,
        RequirementType::Audio(x) => &x.language,
        RequirementType::Subtitle(x) => &x.language,
    };
    let tc = prioritize(la, lb);
    match tc {
        core::cmp::Ordering::Equal => level_cmp(a.level, b.level),
        _ => tc,
    }
}

/// A strictly ascending run of requirements in the priority order; no two
/// of them compare `Equal`.
pub open spec fn sorted_strict(s: Seq<Requirement>) -> bool {
    forall|i: int, j: int| 0 <= i < j < s.len() ==> req_cmp(s[i], s[j]) is Less
}

/// Inserting `x` into an ascending run: before the first entry it does
/// not exceed; dropped when an entry of equal priority key is already
/// present.
pub open spec fn insert_req(s: Seq<Requirement>, x: Requirement) -> Seq<Requirement>
    decreases s.len(),
{
    if s.len() == 0 {
        seq![x]
    } else if req_cmp(x, s[0]) is Less {
        seq![x] + s
    } else if req_cmp(x, s[0]) is Equal {
        s
    } else {
        seq![s[0]] + insert_req(s.skip(1), x)
    }
}

/// The ordered requirement set built by inserting the declared
/// requirements one after the other.
pub open spec fn build_required(input: Seq<Requirement>) -> Seq<Requirement>
    decreases input.len(),
{
    if input.len() == 0 {
        Seq::<Requirement>::empty()
    } else {
        insert_req(build_required(input.drop_last()), input.last())
    }
}

/// Every entry of `insert_req(s, x)` is `x` or an entry of `s`, and at
/// most one entry is added.
pub proof fn lemma_insert_req_elems(s: Seq<Requirement>, x: Requirement)
    ensures
        s.len() <= insert_req(s, x).len() <= s.len() + 1,
        forall|k: int|
            0 <= k < insert_req(s, x).len() ==> insert_req(s, x)[k] == x || s.contains(
                insert_req(s, x)[k],
            ),
    decreases s.len(),
{
    if s.len() == 0 {
    } else if req_cmp(x, s[0]) is Less {
        assert forall|k: int| 0 <= k < insert_req(s, x).len() implies insert_req(s, x)[k] == x
            || s.contains(insert_req(s, x)[k]) by {
            if k > 0 {
                assert(insert_req(s, x)[k] == s[k - 1]);
            }
        }
    } else if req_cmp(x, s[0]) is Equal {
        assert forall|k: int| 0 <= k < s.len() implies s.contains(s[k]) by {}
    } else {
        lemma_insert_req_elems(s.skip(1), x);
        let r = insert_req(s, x);
        assert forall|k: int| 0 <= k < r.len() implies r[k] == x || s.contains(r[k]) by {
            if k > 0 {
                let e = insert_req(s.skip(1), x)[k - 1];
                assert(r[k] == e);
                if e != x {
                    assert(s.skip(1).contains(e));
                    let m = choose|m: int| 0 <= m < s.skip(1).len() && s.skip(1)[m] == e;
                    assert(s[m + 1] == e);
                }
            }
        }
    }
}

/// Insertion keeps the run strictly ascending.
pub proof fn lemma_insert_req_sorted(s: Seq<Requirement>, x: Requirement)
    requires
        sorted_strict(s),
    ensures
        sorted_strict(insert_req(s, x)),
    decreases s.len(),
{
    if s.len() == 0 {
    } else if req_cmp(x, s[0]) is Less {
        let r = seq![x] + s;
        assert forall|i: int, j: int| 0 <= i < j < r.len() implies req_cmp(r[i], r[j]) is Less by {
            if i == 0 {
                if j == 1 {
                    assert(r[j] == s[0]);
                } else {
                    lemma_req_cmp_trans(x, s[0], s[j - 1]);
                }
            } else {
                assert(r[i] == s[i - 1] && r[j] == s[j - 1]);
            }
        }
    } else if req_cmp(x, s[0]) is Equal {
    } else {
        let t = s.skip(1);
        assert(sorted_strict(t)) by {
            assert forall|i: int, j: int| 0 <= i < j < t.len() implies req_cmp(t[i], t[j]) is Less by {
                assert(t[i] == s[i + 1] && t[j] == s[j + 1]);
            }
        }
        lemma_insert_req_sorted(t, x);
        lemma_insert_req_elems(t, x);
        let r = seq![s[0]] + insert_req(t, x);
        assert forall|i: int, j: int| 0 <= i < j < r.len() implies req_cmp(r[i], r[j]) is Less by {
            if i == 0 {
                let e = insert_req(t, x)[j - 1];
                assert(r[j] == e);
                if e == x {
                    lemma_req_cmp_antisym(x, s[0]);
                } else {
                    assert(t.contains(e));
                    let m = choose|m: int| 0 <= m < t.len() && t[m] == e;
                    assert(s[m + 1] == e);
                }
            } else {
                assert(r[i] == insert_req(t, x)[i - 1] && r[j] == insert_req(t, x)[j - 1]);
            }
        }
    }
}

/// The built requirement set is strictly ascending: most specific first,
/// no duplicate priority keys.
pub proof fn lemma_build_required_sorted(input: Seq<Requirement>)
    ensures
        sorted_strict(build_required(input)),
    decreases input.len(),
{
    if input.len() != 0 {
        lemma_build_required_sorted(input.drop_last());
        lemma_insert_req_sorted(build_required(input.drop_last()), input.last());
    }
}

/// Inserts one requirement into an already ascending vector.
fn insert_requirement(v: &mut Vec<Requirement>, x: Requirement)
    ensures
        final(v)@ == insert_req(old(v)@, x),
{
    let n = v.len();
    let mut i: usize = 0;
    proof {
        assert(v@.skip(0) =~= v@);
        assert(v@.take(0) + insert_req(v@.skip(0), x) =~= insert_req(v@, x));
    }
    while i < n
        invariant
            v@ == old(v)@,
            n == v@.len(),
            i <= n,
            insert_req(v@, x) == v@.take(i as int) + insert_req(v@.skip(i as int), x),
        decreases n - i,
    {
        proof {
            assert(v@.skip(i as int)[0] == v@[i as int]);
        }
        match req_cmp_exec(&x, &v[i]) {
            core::cmp::Ordering::Less => {
                proof {
                    assert(v@.take(i as int) + insert_req(v@.skip(i as int), x) =~= v@.insert(
                        i as int,
                        x,
                    ));
                }
                v.insert(i, x);
                return ;
            },
            core::cmp::Ordering::Equal => {
                proof {
                    assert(v@.take(i as int) + insert_req(v@.skip(i as int), x) =~= v@);
                }
                return ;
            },
            core::cmp::Ordering::Greater => {
                proof {
                    assert(v@.skip(i as int).skip(1) =~= v@.skip(i as int + 1));
                    assert(v@.take(i as int) + (seq![v@[i as int]] + insert_req(
                        v@.skip(i as int + 1),
                        x,
                    )) =~= v@.take(i as int + 1) + insert_req(v@.skip(i as int + 1), x));
                }
                i = i + 1;
            },
        }
    }
    proof {
        assert(v@.skip(n as int) =~= Seq::<Requirement>::empty());
        assert(v@.take(n as int) + insert_req(v@.skip(n as int), x) =~= v@.push(x));
    }
    v.push(x);
}

/// A configuration rejection: the declared codec name is not in the
/// catalog.
#[derive(Debug)]
pub enum ConfigError {
    UnknownCodec(String),
}

impl ConfigError {
    /// A human-readable description of the rejection.
    pub fn message(&self) -> (r: String)
        ensures
            self matches ConfigError::UnknownCodec(n) ==> r@ == "unknown codec: "@ + n@,
    {
        match self {
            ConfigError::UnknownCodec(n) => {
                let mut m = String::new();
                m.append("unknown codec: ");
                m.append(n.as_str());
                m
            },
        }
    }
}

/// The validated policy: accepted container extensions (lower-cased, the
/// first one is the preferred output container), accepted codecs, the
/// ordered requirement set, and the two behaviour switches.
pub struct TranscoderConfig {
    pub supported_formats: Vec<String>,
    pub supported_codecs: Vec<CodecInfoExtra>,
    pub required: Vec<Requirement>,
    pub backup_symlink: bool,
    pub dryrun: bool,
}

impl TranscoderConfig {
    /// A well-formed configuration: extensions are stored folded and the
    /// requirement set is strictly ascending in the priority order.
    pub open spec fn wf(self) -> bool {
        &&& forall|i: int|
            0 <= i < self.supported_formats@.len() ==> is_lower(self.supported_formats@[i]@)
        &&& sorted_strict(self.required@)
    }

    /// Builds a configuration from declared values: extensions are folded
    /// to lower case, the requirements are gathered into the ordered set,
    /// the codecs are taken as given.
    pub fn new(
        supported_formats: Vec<String>,
        supported_codecs: Vec<CodecInfoExtra>,
        required: Vec<Requirement>,
        backup_symlink: bool,
        dryrun: bool,
    ) -> (r: Self)
        ensures
            r.supported_formats@.len() == supported_formats@.len(),
            forall|i: int|
                0 <= i < supported_formats@.len() ==> r.supported_formats@[i]@ == lower(
                    supported_formats@[i]@,
                ),
            r.supported_codecs == supported_codecs,
            r.required@ == build_required(required@),
            r.backup_symlink == backup_symlink,
            r.dryrun == dryrun,
            r.wf(),
    {
        let mut formats: Vec<String> = Vec::new();
        let nf = supported_formats.len();
        let mut i: usize = 0;
        while i < nf
            invariant
                nf == supported_formats@.len(),
                i <= nf,
                formats@.len() == i,
                forall|j: int| 0 <= j < i ==> formats@[j]@ == lower(supported_formats@[j]@),
            decreases nf - i,
        {
            formats.push(to_lowercase(supported_formats[i].as_str()));
            i = i + 1;
        }
        let mut reqs: Vec<Requirement> = Vec::new();
        let nr = required.len();
        let mut k: usize = 0;
        proof {
            assert(required@.take(0) =~= Seq::<Requirement>::empty());
        }
        while k < nr
            invariant
                nr == required@.len(),
                k <= nr,
                reqs@ == build_required(required@.take(k as int)),
            decreases nr - k,
        {
            insert_requirement(&mut reqs, required[k].clone());
            proof {
                assert(required@.take(k as int + 1).drop_last() =~= required@.take(k as int));
                assert(required@.take(k as int + 1).last() == required@[k as int]);
            }
            k = k + 1;
        }
        proof {
            assert(required@.take(nr as int) =~= required@);
            lemma_build_required_sorted(required@);
            assert forall|j: int| 0 <= j < formats@.len() implies is_lower(formats@[j]@) by {
                crate::text::lemma_lower_idem(supported_formats@[j]@);
            }
        }
        TranscoderConfig {
            supported_formats: formats,
            supported_codecs,
            required: reqs,
            backup_symlink,
            dryrun,
        }
    }

    /// Builds a configuration whose codecs are declared by name: each
    /// name must resolve in the catalog, and the first unresolved name is
    /// reported as the error.
    pub fn from_names(
        supported_formats: Vec<String>,
        codec_names: Vec<String>,
        required: Vec<Requirement>,
        backup_symlink: bool,
        dryrun: bool,
        catalog: &IndexedCodecs,
    ) -> (r: Result<Self, ConfigError>)
        ensures
            r is Ok <==> (forall|i: int|
                0 <= i < codec_names@.len() ==> catalog.spec_find(codec_names@[i]@) is Some),
            r matches Ok(c) ==> {
                &&& c.supported_formats@.len() == supported_formats@.len()
                &&& forall|i: int|
                    0 <= i < supported_formats@.len() ==> c.supported_formats@[i]@ == lower(
                        supported_formats@[i]@,
                    )
                &&& c.supported_codecs@.len() == codec_names@.len()
                &&& forall|i: int|
                    0 <= i < codec_names@.len() ==> Some(c.supported_codecs@[i])
                        == catalog.spec_find(codec_names@[i]@)
                &&& c.required@ == build_required(required@)
                &&& c.backup_symlink == backup_symlink
                &&& c.dryrun == dryrun
                &&& c.wf()
            },
            r matches Err(e) ==> {
                let ConfigError::UnknownCodec(n) = e;
                exists|i: int|
                    {
                        &&& 0 <= i < codec_names@.len()
                        &&& catalog.spec_find(codec_names@[i]@) is None
                        &&& n@ == codec_names@[i]@
                        &&& forall|j: int|
                            0 <= j < i ==> catalog.spec_find(codec_names@[j]@) is Some
                    }
            },
    {
        let mut codecs: Vec<CodecInfoExtra> = Vec::new();
        let n = codec_names.len();
        let mut i: usize = 0;
        while i < n
            invariant
                n == codec_names@.len(),
                i <= n,
                codecs@.len() == i,
                forall|j: int|
                    0 <= j < i ==> Some(codecs@[j]) == catalog.spec_find(codec_names@[j]@),
            decreases n - i,
        {
            match catalog.find_in(codec_names[i].as_str()) {
                Some(c) => {
                    codecs.push(c);
                },
                None => {
                    let n_bad = codec_names[i].clone();
                    proof {
                        let wi = i as int;
                        assert(0 <= wi < codec_names@.len());
                        assert(catalog.spec_find(codec_names@[wi]@) is None);
                        assert(n_bad@ == codec_names@[wi]@);
                        assert forall|j: int|
                            0 <= j < wi implies catalog.spec_find(codec_names@[j]@) is Some by {
                            assert(Some(codecs@[j]) == catalog.spec_find(codec_names@[j]@));
                        }
                    }
                    return Err(ConfigError::UnknownCodec(n_bad));
                },
            }
            i = i + 1;
        }
        proof {
            assert forall|j: int|
                0 <= j < codec_names@.len() implies catalog.spec_find(codec_names@[j]@) is Some by {
                assert(Some(codecs@[j]) == catalog.spec_find(codec_names@[j]@));
            }
        }
        Ok(Self::new(supported_formats, codecs, required, backup_symlink, dryrun))
    }

    /// The long names of the accepted codecs, in declared order — what a
    /// serialized form of the policy lists for them.
    pub fn codec_long_names(&self) -> (r: Vec<String>)
        ensures
            r@.len() == self.supported_codecs@.len(),
            forall|i: int|
                0 <= i < r@.len() ==> r@[i]@ == self.supported_codecs@[i].codec_long_name@,
    {
        let mut names: Vec<String> = Vec::new();
        let n = self.supported_codecs.len();
        let mut i: usize = 0;
        while i < n
            invariant
                n == self.supported_codecs@.len(),
                i <= n,
                names@.len() == i,
                forall|j: int|
                    0 <= j < i ==> names@[j]@ == self.supported_codecs@[j].codec_long_name@,
            decreases n - i,
        {
            names.push(self.supported_codecs[i].codec_long_name.clone());
            i = i + 1;
        }
        names
    }
}

} // verus!
