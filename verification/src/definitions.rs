use vstd::prelude::*;
use vstd::string::StringSliceAdditionalSpecFns;
use crate::document::{bytes_to_string, DocNode};

verus! {

/// What a piece of media is tagged with.
pub struct Metadata {
    pub title: String,
    pub artist: String,
    pub album: Option<String>,
}

/// An intro clip tied to a song by its tags.
pub struct Intro {
    pub path: String,
    pub metadata: Metadata,
}

/// A music entry: the media path, its tags, and its soft-window bounds in
/// microseconds.
pub struct Song {
    pub path: String,
    pub metadata: Metadata,
    pub pre_micros: i64,
    pub post_micros: i64,
}

/// The merged station definitions: the semantic path lists, the intros and
/// the music entries.
pub struct Definitions {
    pub paths: Vec<String>,
    pub name: Option<String>,
    pub solo: Vec<String>,
    pub general: Vec<String>,
    pub to_ad: Vec<String>,
    pub to_news: Vec<String>,
    pub time_evening: Vec<String>,
    pub time_morning: Vec<String>,
    pub id: Vec<String>,
    pub ad: Vec<String>,
    pub news: Vec<String>,
    pub intro: Vec<Intro>,
    pub music: Vec<Song>,
}

/// Two tag sets match when artist and title agree and the albums agree
/// wherever both are given.
pub open spec fn spec_meta_match(a: Metadata, b: Metadata) -> bool {
    &&& (a.album is Some && b.album is Some ==> a.album.unwrap()@ == b.album.unwrap()@)
    &&& a.artist@ == b.artist@
    &&& a.title@ == b.title@
}

/// Whether an intro has a matching song in the list.
pub open spec fn spec_intro_matched(i: Intro, music: Seq<Song>) -> bool {
    exists|k: int| 0 <= k < music.len() && spec_meta_match(i.metadata, (#[trigger] music[k]).metadata)
}

impl Definitions {
    /// A definition set with nothing in it.
    pub fn empty() -> (d: Definitions)
        ensures
            d.paths.len() == 0,
            d.name is None,
            d.solo.len() == 0,
            d.general.len() == 0,
            d.to_ad.len() == 0,
            d.to_news.len() == 0,
            d.time_evening.len() == 0,
            d.time_morning.len() == 0,
            d.id.len() == 0,
            d.ad.len() == 0,
            d.news.len() == 0,
            d.intro.len() == 0,
            d.music.len() == 0,
    {
        Definitions {
            paths: Vec::new(),
            name: None,
            solo: Vec::new(),
            general: Vec::new(),
            to_ad: Vec::new(),
            to_news: Vec::new(),
            time_evening: Vec::new(),
            time_morning: Vec::new(),
            id: Vec::new(),
            ad: Vec::new(),
            news: Vec::new(),
            intro: Vec::new(),
            music: Vec::new(),
        }
    }

    /// Folds another definition set into this one: its name wins when set,
    /// and every list is appended.
    pub fn merge(&mut self, other: Definitions)
        ensures
            final(self).name == (if other.name is Some {
                other.name
            } else {
                old(self).name
            }),
            final(self).solo@ == old(self).solo@ + other.solo@,
            final(self).general@ == old(self).general@ + other.general@,
            final(self).to_ad@ == old(self).to_ad@ + other.to_ad@,
            final(self).to_news@ == old(self).to_news@ + other.to_news@,
            final(self).time_evening@ == old(self).time_evening@ + other.time_evening@,
            final(self).time_morning@ == old(self).time_morning@ + other.time_morning@,
            final(self).id@ == old(self).id@ + other.id@,
            final(self).ad@ == old(self).ad@ + other.ad@,
            final(self).news@ == old(self).news@ + other.news@,
            final(self).intro@ == old(self).intro@ + other.intro@,
            final(self).music@ == old(self).music@ + other.music@,
            final(self).paths == old(self).paths,
    {
        let Definitions {
            paths: _,
            name,
            mut solo,
            mut general,
            mut to_ad,
            mut to_news,
            mut time_evening,
            mut time_morning,
            mut id,
            mut ad,
            mut news,
            mut intro,
            mut music,
        } = other;
        if name.is_some() {
            self.name = name;
        }
        self.solo.append(&mut solo);
        self.general.append(&mut general);
        self.to_ad.append(&mut to_ad);
        self.to_news.append(&mut to_news);
        self.time_evening.append(&mut time_evening);
        self.time_morning.append(&mut time_morning);
        self.id.append(&mut id);
        self.ad.append(&mut ad);
        self.news.append(&mut news);
        self.intro.append(&mut intro);
        self.music.append(&mut music);
    }

    /// Checks that every intro matches some song; the first orphaned intro
    /// is reported by its index.
    pub fn verify(&self) -> (r: Result<(), usize>)
        ensures
            r is Ok <==> forall|i: int|
                0 <= i < self.intro.len() ==> spec_intro_matched(
                    #[trigger] self.intro@[i],
                    self.music@,
                ),
            r is Err ==> (r->Err_0 as int) < self.intro.len() && !spec_intro_matched(
                self.intro@[r->Err_0 as int],
                self.music@,
            ),
    {
        let mut i: usize = 0;
        while i < self.intro.len()
            invariant
                i <= self.intro.len(),
                forall|k: int|
                    0 <= k < i ==> spec_intro_matched(#[trigger] self.intro@[k], self.music@),
            decreases self.intro.len() - i,
        {
            let mut matched = false;
            let mut k: usize = 0;
            while k < self.music.len()
                invariant
                    k <= self.music.len(),
                    i < self.intro.len(),
                    matched ==> spec_intro_matched(self.intro@[i as int], self.music@),
                    !matched ==> forall|q: int|
                        0 <= q < k ==> !spec_meta_match(
                            self.intro@[i as int].metadata,
                            (#[trigger] self.music@[q]).metadata,
                        ),
                decreases self.music.len() - k,
            {
                if meta_match(&self.intro[i].metadata, &self.music[k].metadata) {
                    matched = true;
                }
                k += 1;
            }
            if !matched {
                proof {
                    assert(!spec_intro_matched(self.intro@[i as int], self.music@));
                }
                return Err(i);
            }
            i += 1;
        }
        Ok(())
    }

    /// The intros whose tags match the given ones, by index.
    pub fn get_intros(&self, meta: &Metadata) -> (r: Vec<usize>)
        ensures
            forall|k: int|
                0 <= k < r.len() ==> #[trigger] r@[k] < self.intro.len() && spec_meta_match(
                    self.intro@[r@[k] as int].metadata,
                    *meta,
                ),
            forall|i: int|
                0 <= i < self.intro.len() && spec_meta_match(
                    (#[trigger] self.intro@[i]).metadata,
                    *meta,
                ) ==> r@.contains(i as usize),
    {
        let mut r: Vec<usize> = Vec::new();
        let mut i: usize = 0;
        while i < self.intro.len()
            invariant
                i <= self.intro.len(),
                forall|k: int|
                    0 <= k < r.len() ==> #[trigger] r@[k] < self.intro.len() && spec_meta_match(
                        self.intro@[r@[k] as int].metadata,
                        *meta,
                    ),
                forall|q: int|
                    0 <= q < i && spec_meta_match(
                        (#[trigger] self.intro@[q]).metadata,
                        *meta,
                    ) ==> r@.contains(q as usize),
            decreases self.intro.len() - i,
        {
            let ghost prev = r@;
            if meta_match(&self.intro[i].metadata, meta) {
                r.push(i);
            }
            proof {
                assert forall|q: int|
                    0 <= q < i + 1 && spec_meta_match(
                        (#[trigger] self.intro@[q]).metadata,
                        *meta,
                    ) implies r@.contains(q as usize) by {
                    if q < i {
                        let w = choose|w: int| 0 <= w < prev.len() && prev[w] == q as usize;
                        assert(r@[w] == q as usize);
                    } else {
                        assert(r@.last() == q as usize);
                    }
                }
            }
            i += 1;
        }
        r
    }
}

/// Whether two tag sets match: artist and title equal, albums equal when
/// both are present.
pub fn meta_match(a: &Metadata, b: &Metadata) -> (r: bool)
    ensures
        r <==> spec_meta_match(*a, *b),
{
    if let Some(aa) = &a.album {
        if let Some(ab) = &b.album {
            if !aa.eq(ab) {
                return false;
            }
        }
    }
    a.artist.eq(&b.artist) && a.title.eq(&b.title)
}

/// Why a definition document was rejected.
#[derive(Clone, Copy, Debug, PartialEq, Eq, Structural)]
pub enum DefError {
    /// The document (or an entry) is not a mapping.
    NotMapping,
    /// The document (or an entry) carries a key outside its allowed set.
    UnknownKey,
    /// A song or intro entry lacks a required field.
    MissingField,
    /// A `pre` or `post` mark is not a well-formed time literal.
    BadTime,
    /// A list-valued key holds something other than a list.
    ExpectedList,
}


/// The bytes of an ASCII key word.
fn key(word: &str) -> (r: Vec<u8>)
    ensures
        r@ == word.spec_bytes(),
{
    let bytes = word.as_bytes();
    let mut out: Vec<u8> = Vec::new();
    let mut i: usize = 0;
    while i < bytes.len()
        invariant
            i <= bytes.len(),
            out@ =~= bytes@.take(i as int),
        decreases bytes.len() - i,
    {
        out.push(bytes[i]);
        i += 1;
    }
    proof {
        assert(out@ =~= bytes@);
    }
    out
}


/// Whether a key is one of the allowed words.
pub open spec fn spec_key_allowed(key: Seq<u8>, allowed: Seq<Vec<u8>>) -> bool {
    exists|j: int| 0 <= j < allowed.len() && (#[trigger] allowed[j])@ == key
}

/// Checks a mapping's keys against the allowed words: true exactly when
/// the node is a mapping and every key is allowed — unknown keys are
/// errors.
fn check_keys(doc: &DocNode, allowed: &Vec<Vec<u8>>) -> (r: bool)
    ensures
        r <==> ((*doc) is Mapping && (forall|i: int|
            0 <= i < (*doc)->Mapping_0.len() ==> spec_key_allowed(
                (#[trigger] (*doc)->Mapping_0@[i]).0@,
                allowed@,
            ))),
{
    match doc {
        DocNode::Mapping(entries) => {
            proof {
                assert((*doc)->Mapping_0 == *entries);
            }
            let mut i: usize = 0;
            while i < entries.len()
                invariant
                    i <= entries.len(),
                    (*doc)->Mapping_0 == *entries,
                    (*doc) is Mapping,
                    forall|k: int|
                        0 <= k < i ==> spec_key_allowed(
                            (#[trigger] entries@[k]).0@,
                            allowed@,
                        ),
                decreases entries.len() - i,
            {
                let mut hit = false;
                let mut j: usize = 0;
                while j < allowed.len()
                    invariant
                        j <= allowed.len(),
                        i < entries.len(),
                        hit ==> spec_key_allowed(entries@[i as int].0@, allowed@),
                        !hit ==> forall|q: int|
                            0 <= q < j ==> (#[trigger] allowed@[q])@ != entries@[i as int].0@,
                    decreases allowed.len() - j,
                {
                    if crate::document::bytes_eq(&entries[i].0, &allowed[j]) {
                        hit = true;
                    }
                    j += 1;
                }
                if !hit {
                    proof {
                        assert(!spec_key_allowed(entries@[i as int].0@, allowed@));
                        assert(!spec_key_allowed(
                            ((*doc)->Mapping_0@[i as int]).0@,
                            allowed@,
                        ));
                    }
                    return false;
                }
                i += 1;
            }
            proof {
                assert forall|q: int| 0 <= q < (*doc)->Mapping_0.len() implies spec_key_allowed(
                    (#[trigger] (*doc)->Mapping_0@[q]).0@,
                    allowed@,
                ) by {
                    assert(spec_key_allowed(entries@[q].0@, allowed@));
                }
            }
            true
        },
        _ => false,
    }
}

/// Reads the scalar under a key as text.
fn doc_string(doc: &DocNode, k: Vec<u8>) -> (r: Option<String>)
    ensures
        r is Some <==> (match doc.spec_get(k@) {
            Some(n) => n is Scalar,
            None => false,
        }),
{
    match doc.get(&k) {
        Some(node) => match node.as_bytes() {
            Some(b) => Some(bytes_to_string(b)),
            None => None,
        },
        None => None,
    }
}

/// Reads the list under a key as text items, one per scalar item.
fn doc_strings(doc: &DocNode, k: Vec<u8>) -> (r: Vec<String>)
    ensures
        r.len() as int == (match doc.spec_get(k@) {
            Some(n) => if n is List {
                crate::document::spec_scalar_items(n->List_0@).len() as int
            } else {
                0int
            },
            None => 0int,
        }),
{
    let mut out: Vec<String> = Vec::new();
    if let Some(node) = doc.get(&k) {
        let items = node.byte_list();
        let mut i: usize = 0;
        while i < items.len()
            invariant
                i <= items.len(),
                out.len() == i,
            decreases items.len() - i,
        {
            out.push(bytes_to_string(&items[i]));
            i += 1;
        }
    }
    out
}

/// Reads the scalar under a key as raw bytes.
fn doc_bytes(doc: &DocNode, k: Vec<u8>) -> (r: Option<Vec<u8>>)
    ensures
        (match doc.spec_get(k@) {
            Some(n) => if n is Scalar {
                r is Some && r.unwrap()@ == n->Scalar_0@
            } else {
                r is None
            },
            None => r is None,
        }),
{
    match doc.get(&k) {
        Some(node) => match node.as_bytes() {
            Some(b) => Some(b.clone()),
            None => None,
        },
        None => None,
    }
}

/// Whether the key is present with something other than a list under it.
fn non_list_under(doc: &DocNode, k: &Vec<u8>) -> (r: bool)
    ensures
        r <==> (match doc.spec_get(k@) {
            Some(n) => !(n is List),
            None => false,
        }),
{
    match doc.get(k) {
        Some(node) => !node.is_list(),
        None => false,
    }
}

/// The words a definition document accepts at its top level.
pub open spec fn spec_def_key(k: Seq<u8>) -> bool {
    ||| k == "name".spec_bytes()
    ||| k == "prefix".spec_bytes()
    ||| k == "include".spec_bytes()
    ||| k == "solo".spec_bytes()
    ||| k == "general".spec_bytes()
    ||| k == "to-ad".spec_bytes()
    ||| k == "to-news".spec_bytes()
    ||| k == "time-evening".spec_bytes()
    ||| k == "time-morning".spec_bytes()
    ||| k == "id".spec_bytes()
    ||| k == "ad".spec_bytes()
    ||| k == "news".spec_bytes()
    ||| k == "intro".spec_bytes()
    ||| k == "music".spec_bytes()
}

/// The words an intro entry accepts.
pub open spec fn spec_intro_key(k: Seq<u8>) -> bool {
    ||| k == "path".spec_bytes()
    ||| k == "title".spec_bytes()
    ||| k == "artist".spec_bytes()
    ||| k == "album".spec_bytes()
}

/// The words a music entry accepts.
pub open spec fn spec_music_key(k: Seq<u8>) -> bool {
    spec_intro_key(k) || k == "pre".spec_bytes() || k == "post".spec_bytes()
}

/// Whether the node under `k`, if there is one, is a list.
pub open spec fn spec_listish(doc: DocNode, k: Seq<u8>) -> bool {
    match doc.spec_get(k) {
        Some(n) => n is List,
        None => true,
    }
}

/// Whether a scalar stands under `k`.
pub open spec fn spec_scalar_under(doc: DocNode, k: Seq<u8>) -> bool {
    match doc.spec_get(k) {
        Some(n) => n is Scalar,
        None => false,
    }
}

/// Whether a node is a scalar whose bytes read as a machine-representable
/// time mark.
pub open spec fn spec_mark_ok(n: DocNode) -> bool {
    &&& n is Scalar
    &&& (match spec_parse_time(n->Scalar_0@) {
        Some(v) => v <= i64::MAX,
        None => false,
    })
}

/// What one intro entry must hold: a mapping under the intro words with
/// its path, title and artist scalars present.
pub open spec fn spec_intro_entry_ok(e: DocNode) -> bool {
    &&& e is Mapping
    &&& (forall|q: int|
        0 <= q < e->Mapping_0.len() ==> spec_intro_key((#[trigger] e->Mapping_0@[q]).0@))
    &&& spec_scalar_under(e, "path".spec_bytes())
    &&& spec_scalar_under(e, "title".spec_bytes())
    &&& spec_scalar_under(e, "artist".spec_bytes())
}

/// What one music entry must hold: a mapping under the music words with
/// its path, title and artist scalars present and both marks reading as
/// time literals.
pub open spec fn spec_music_entry_ok(e: DocNode) -> bool {
    &&& e is Mapping
    &&& (forall|q: int|
        0 <= q < e->Mapping_0.len() ==> spec_music_key((#[trigger] e->Mapping_0@[q]).0@))
    &&& spec_scalar_under(e, "path".spec_bytes())
    &&& spec_scalar_under(e, "title".spec_bytes())
    &&& spec_scalar_under(e, "artist".spec_bytes())
    &&& (match e.spec_get("pre".spec_bytes()) {
        Some(n) => spec_mark_ok(n),
        None => false,
    })
    &&& (match e.spec_get("post".spec_bytes()) {
        Some(n) => spec_mark_ok(n),
        None => false,
    })
}

/// When assembly of a definition document succeeds: it is a mapping under
/// the allowed words, every list word holds a list or nothing, and every
/// intro and music entry is well-shaped.
pub open spec fn spec_defs_ok(doc: DocNode) -> bool {
    &&& doc is Mapping
    &&& (forall|q: int|
        0 <= q < doc->Mapping_0.len() ==> spec_def_key((#[trigger] doc->Mapping_0@[q]).0@))
    &&& spec_listish(doc, "include".spec_bytes())
    &&& spec_listish(doc, "solo".spec_bytes())
    &&& spec_listish(doc, "general".spec_bytes())
    &&& spec_listish(doc, "to-ad".spec_bytes())
    &&& spec_listish(doc, "to-news".spec_bytes())
    &&& spec_listish(doc, "time-evening".spec_bytes())
    &&& spec_listish(doc, "time-morning".spec_bytes())
    &&& spec_listish(doc, "id".spec_bytes())
    &&& spec_listish(doc, "ad".spec_bytes())
    &&& spec_listish(doc, "news".spec_bytes())
    &&& spec_listish(doc, "intro".spec_bytes())
    &&& spec_listish(doc, "music".spec_bytes())
    &&& (match doc.spec_get("intro".spec_bytes()) {
        Some(n) => n is List ==> (forall|q: int|
            0 <= q < n->List_0.len() ==> spec_intro_entry_ok(*(#[trigger] n->List_0@[q]))),
        None => true,
    })
    &&& (match doc.spec_get("music".spec_bytes()) {
        Some(n) => n is List ==> (forall|q: int|
            0 <= q < n->List_0.len() ==> spec_music_entry_ok(*(#[trigger] n->List_0@[q]))),
        None => true,
    })
}

/// The allowed-key check against the fourteen top words is exactly the
/// word test.
proof fn lemma_def_keys_bridge(allowed: Seq<Vec<u8>>)
    requires
        allowed.len() == 14,
        allowed[0]@ == "name".spec_bytes(),
        allowed[1]@ == "prefix".spec_bytes(),
        allowed[2]@ == "include".spec_bytes(),
        allowed[3]@ == "solo".spec_bytes(),
        allowed[4]@ == "general".spec_bytes(),
        allowed[5]@ == "to-ad".spec_bytes(),
        allowed[6]@ == "to-news".spec_bytes(),
        allowed[7]@ == "time-evening".spec_bytes(),
        allowed[8]@ == "time-morning".spec_bytes(),
        allowed[9]@ == "id".spec_bytes(),
        allowed[10]@ == "ad".spec_bytes(),
        allowed[11]@ == "news".spec_bytes(),
        allowed[12]@ == "intro".spec_bytes(),
        allowed[13]@ == "music".spec_bytes(),
    ensures
        forall|k: Seq<u8>| #[trigger] spec_key_allowed(k, allowed) <==> spec_def_key(k),
{
    assert forall|k: Seq<u8>| #[trigger] spec_key_allowed(k, allowed) <==> spec_def_key(k) by {
        if spec_key_allowed(k, allowed) {
            let j = choose|j: int| 0 <= j < allowed.len() && allowed[j]@ == k;
            assert(spec_def_key(k));
        }
        if spec_def_key(k) {
            if k == "name".spec_bytes() {
                assert(allowed[0]@ == k);
            } else if k == "prefix".spec_bytes() {
                assert(allowed[1]@ == k);
            } else if k == "include".spec_bytes() {
                assert(allowed[2]@ == k);
            } else if k == "solo".spec_bytes() {
                assert(allowed[3]@ == k);
            } else if k == "general".spec_bytes() {
                assert(allowed[4]@ == k);
            } else if k == "to-ad".spec_bytes() {
                assert(allowed[5]@ == k);
            } else if k == "to-news".spec_bytes() {
                assert(allowed[6]@ == k);
            } else if k == "time-evening".spec_bytes() {
                assert(allowed[7]@ == k);
            } else if k == "time-morning".spec_bytes() {
                assert(allowed[8]@ == k);
            } else if k == "id".spec_bytes() {
                assert(allowed[9]@ == k);
            } else if k == "ad".spec_bytes() {
                assert(allowed[10]@ == k);
            } else if k == "news".spec_bytes() {
                assert(allowed[11]@ == k);
            } else if k == "intro".spec_bytes() {
                assert(allowed[12]@ == k);
            } else {
                assert(allowed[13]@ == k);
            }
            assert(spec_key_allowed(k, allowed));
        }
    }
}

/// The allowed-key check against the four intro words is exactly the
/// word test.
proof fn lemma_intro_keys_bridge(allowed: Seq<Vec<u8>>)
    requires
        allowed.len() == 4,
        allowed[0]@ == "path".spec_bytes(),
        allowed[1]@ == "title".spec_bytes(),
        allowed[2]@ == "artist".spec_bytes(),
        allowed[3]@ == "album".spec_bytes(),
    ensures
        forall|k: Seq<u8>| #[trigger] spec_key_allowed(k, allowed) <==> spec_intro_key(k),
{
    assert forall|k: Seq<u8>| #[trigger] spec_key_allowed(k, allowed) <==> spec_intro_key(k) by {
        if spec_key_allowed(k, allowed) {
            let j = choose|j: int| 0 <= j < allowed.len() && allowed[j]@ == k;
            assert(spec_intro_key(k));
        }
        if spec_intro_key(k) {
            if k == "path".spec_bytes() {
                assert(allowed[0]@ == k);
            } else if k == "title".spec_bytes() {
                assert(allowed[1]@ == k);
            } else if k == "artist".spec_bytes() {
                assert(allowed[2]@ == k);
            } else {
                assert(allowed[3]@ == k);
            }
            assert(spec_key_allowed(k, allowed));
        }
    }
}

/// The allowed-key check against the six music words is exactly the word
/// test.
proof fn lemma_music_keys_bridge(allowed: Seq<Vec<u8>>)
    requires
        allowed.len() == 6,
        allowed[0]@ == "path".spec_bytes(),
        allowed[1]@ == "title".spec_bytes(),
        allowed[2]@ == "artist".spec_bytes(),
        allowed[3]@ == "album".spec_bytes(),
        allowed[4]@ == "pre".spec_bytes(),
        allowed[5]@ == "post".spec_bytes(),
    ensures
        forall|k: Seq<u8>| #[trigger] spec_key_allowed(k, allowed) <==> spec_music_key(k),
{
    assert forall|k: Seq<u8>| #[trigger] spec_key_allowed(k, allowed) <==> spec_music_key(k) by {
        if spec_key_allowed(k, allowed) {
            let j = choose|j: int| 0 <= j < allowed.len() && allowed[j]@ == k;
            assert(spec_music_key(k));
        }
        if spec_music_key(k) {
            if k == "path".spec_bytes() {
                assert(allowed[0]@ == k);
            } else if k == "title".spec_bytes() {
                assert(allowed[1]@ == k);
            } else if k == "artist".spec_bytes() {
                assert(allowed[2]@ == k);
            } else if k == "album".spec_bytes() {
                assert(allowed[3]@ == k);
            } else if k == "pre".spec_bytes() {
                assert(allowed[4]@ == k);
            } else {
                assert(allowed[5]@ == k);
            }
            assert(spec_key_allowed(k, allowed));
        }
    }
}

impl Definitions {
    /// Assembles one definition document: the named path lists, the intro
    /// entries, and the music entries with their soft-window marks parsed
    /// from their time literals.  Returns the definitions together with
    /// the `include` paths, which the caller loads and merges first, and
    /// the `prefix` the paths resolve against.  A song or intro without a
    /// required field, or with a malformed mark, is rejected.
    pub fn from_doc(doc: &DocNode) -> (r: Result<
        (Definitions, Vec<String>, Option<String>),
        DefError,
    >)
        ensures
            r == Err::<(Definitions, Vec<String>, Option<String>), DefError>(
                DefError::NotMapping,
            ) <==> !(doc is Mapping),
            r is Ok <==> spec_defs_ok(*doc),
            r is Ok ==> (match doc.spec_get("music".spec_bytes()) {
                Some(n) => n is List && r->Ok_0.0.music.len() == n->List_0.len() && (forall|
                    q: int,
                |
                    0 <= q < n->List_0.len() ==> {
                        &&& (match (*(#[trigger] n->List_0@[q])).spec_get(
                            "pre".spec_bytes(),
                        ) {
                            Some(p) => Some(r->Ok_0.0.music[q].pre_micros as int)
                                == spec_parse_time(p->Scalar_0@),
                            None => false,
                        })
                        &&& (match (*n->List_0@[q]).spec_get("post".spec_bytes()) {
                            Some(p) => Some(r->Ok_0.0.music[q].post_micros as int)
                                == spec_parse_time(p->Scalar_0@),
                            None => false,
                        })
                    }),
                None => r->Ok_0.0.music.len() == 0,
            }),
            r is Ok ==> (match doc.spec_get("intro".spec_bytes()) {
                Some(n) => n is List && r->Ok_0.0.intro.len() == n->List_0.len(),
                None => r->Ok_0.0.intro.len() == 0,
            }),
    {
        let mut top_keys: Vec<Vec<u8>> = Vec::new();
        top_keys.push(key("name"));
        top_keys.push(key("prefix"));
        top_keys.push(key("include"));
        top_keys.push(key("solo"));
        top_keys.push(key("general"));
        top_keys.push(key("to-ad"));
        top_keys.push(key("to-news"));
        top_keys.push(key("time-evening"));
        top_keys.push(key("time-morning"));
        top_keys.push(key("id"));
        top_keys.push(key("ad"));
        top_keys.push(key("news"));
        top_keys.push(key("intro"));
        top_keys.push(key("music"));
        proof {
            lemma_def_keys_bridge(top_keys@);
        }
        if !check_keys(doc, &top_keys) {
            return Err(if doc.is_mapping() {
                DefError::UnknownKey
            } else {
                DefError::NotMapping
            });
        }
        if non_list_under(doc, &key("include")) || non_list_under(doc, &key("solo"))
            || non_list_under(doc, &key("general")) || non_list_under(doc, &key("to-ad"))
            || non_list_under(doc, &key("to-news")) || non_list_under(
            doc,
            &key("time-evening"),
        ) || non_list_under(doc, &key("time-morning")) || non_list_under(doc, &key("id"))
            || non_list_under(doc, &key("ad")) || non_list_under(doc, &key("news"))
            || non_list_under(doc, &key("intro")) || non_list_under(doc, &key("music")) {
            return Err(DefError::ExpectedList);
        }
        let mut defs = Definitions::empty();
        if let Some(name) = doc_string(doc, key("name")) {
            defs.name = Some(name);
        }
        defs.solo = doc_strings(doc, key("solo"));
        defs.general = doc_strings(doc, key("general"));
        defs.to_ad = doc_strings(doc, key("to-ad"));
        defs.to_news = doc_strings(doc, key("to-news"));
        defs.time_evening = doc_strings(doc, key("time-evening"));
        defs.time_morning = doc_strings(doc, key("time-morning"));
        defs.id = doc_strings(doc, key("id"));
        defs.ad = doc_strings(doc, key("ad"));
        defs.news = doc_strings(doc, key("news"));
        let intro_key = key("intro");
        if let Some(node) = doc.get(&intro_key) {
            if let DocNode::List(items) = node {
                let ghost intro_node = *node;
                let mut i: usize = 0;
                while i < items.len()
                    invariant
                        i <= items.len(),
                        doc.spec_get("intro".spec_bytes()) == Some(intro_node),
                        intro_node is List,
                        intro_node->List_0 == *items,
                        defs.intro.len() == i,
                        defs.music.len() == 0,
                        forall|q: int|
                            0 <= q < i ==> spec_intro_entry_ok(*(#[trigger] items@[q])),
                    decreases items.len() - i,
                {
                    let entry = &*items[i];
                    let mut entry_keys: Vec<Vec<u8>> = Vec::new();
                    entry_keys.push(key("path"));
                    entry_keys.push(key("title"));
                    entry_keys.push(key("artist"));
                    entry_keys.push(key("album"));
                    proof {
                        lemma_intro_keys_bridge(entry_keys@);
                    }
                    if !check_keys(entry, &entry_keys) {
                        proof {
                            assert(!spec_intro_entry_ok(*items@[i as int]));
                        }
                        return Err(DefError::UnknownKey);
                    }
                    let path = match doc_string(entry, key("path")) {
                        Some(p) => p,
                        None => {
                            return Err(DefError::MissingField);
                        },
                    };
                    let metadata = match doc_metadata(entry) {
                        Some(m) => m,
                        None => {
                            return Err(DefError::MissingField);
                        },
                    };
                    defs.intro.push(Intro { path, metadata });
                    i += 1;
                }
            }
        }
        let music_key = key("music");
        let ghost intro_len = defs.intro.len() as int;
        if let Some(node) = doc.get(&music_key) {
            if let DocNode::List(items) = node {
                let ghost music_node = *node;
                let mut i: usize = 0;
                while i < items.len()
                    invariant
                        i <= items.len(),
                        doc.spec_get("music".spec_bytes()) == Some(music_node),
                        music_node is List,
                        music_node->List_0 == *items,
                        defs.intro.len() as int == intro_len,
                        defs.music.len() == i,
                        forall|q: int|
                            0 <= q < i ==> spec_music_entry_ok(*(#[trigger] items@[q])),
                        forall|q: int|
                            0 <= q < i ==> {
                                &&& (match (*(#[trigger] items@[q])).spec_get(
                                    "pre".spec_bytes(),
                                ) {
                                    Some(p) => Some(defs.music[q].pre_micros as int)
                                        == spec_parse_time(p->Scalar_0@),
                                    None => false,
                                })
                                &&& (match (*items@[q]).spec_get("post".spec_bytes()) {
                                    Some(p) => Some(defs.music[q].post_micros as int)
                                        == spec_parse_time(p->Scalar_0@),
                                    None => false,
                                })
                            },
                    decreases items.len() - i,
                {
                    let entry = &*items[i];
                    proof {
                        assert(*entry == *items@[i as int]);
                    }
                    let mut entry_keys: Vec<Vec<u8>> = Vec::new();
                    entry_keys.push(key("path"));
                    entry_keys.push(key("title"));
                    entry_keys.push(key("artist"));
                    entry_keys.push(key("album"));
                    entry_keys.push(key("pre"));
                    entry_keys.push(key("post"));
                    proof {
                        lemma_music_keys_bridge(entry_keys@);
                    }
                    if !check_keys(entry, &entry_keys) {
                        proof {
                            assert(!spec_music_entry_ok(*items@[i as int]));
                        }
                        return Err(DefError::UnknownKey);
                    }
                    let path = match doc_string(entry, key("path")) {
                        Some(p) => p,
                        None => {
                            return Err(DefError::MissingField);
                        },
                    };
                    let metadata = match doc_metadata(entry) {
                        Some(m) => m,
                        None => {
                            return Err(DefError::MissingField);
                        },
                    };
                    let pre_bytes = match doc_bytes(entry, key("pre")) {
                        Some(b) => b,
                        None => {
                            return Err(DefError::MissingField);
                        },
                    };
                    let post_bytes = match doc_bytes(entry, key("post")) {
                        Some(b) => b,
                        None => {
                            return Err(DefError::MissingField);
                        },
                    };
                    let pre_micros = match parse_time(&pre_bytes) {
                        Some(v) => v,
                        None => {
                            return Err(DefError::BadTime);
                        },
                    };
                    let post_micros = match parse_time(&post_bytes) {
                        Some(v) => v,
                        None => {
                            return Err(DefError::BadTime);
                        },
                    };
                    proof {
                        if spec_parse_time(pre_bytes@) is Some {
                            lemma_time_fold_monotone(
                                pre_bytes@,
                                0,
                                0,
                                0,
                                0,
                                false,
                                0,
                                spec_parse_time(pre_bytes@).unwrap(),
                            );
                        }
                        if spec_parse_time(post_bytes@) is Some {
                            lemma_time_fold_monotone(
                                post_bytes@,
                                0,
                                0,
                                0,
                                0,
                                false,
                                0,
                                spec_parse_time(post_bytes@).unwrap(),
                            );
                        }
                        assert(match (*items@[i as int]).spec_get("pre".spec_bytes()) {
                            Some(p) => Some(pre_micros as int) == spec_parse_time(
                                p->Scalar_0@,
                            ),
                            None => false,
                        });
                        assert(match (*items@[i as int]).spec_get("post".spec_bytes()) {
                            Some(p) => Some(post_micros as int) == spec_parse_time(
                                p->Scalar_0@,
                            ),
                            None => false,
                        });
                    }
                    defs.music.push(Song { path, metadata, pre_micros, post_micros });
                    i += 1;
                }
            }
        }
        let includes = doc_strings(doc, key("include"));
        let prefix = doc_string(doc, key("prefix"));
        Ok((defs, includes, prefix))
    }
}

/// Reads an entry's title, artist and optional album.
fn doc_metadata(entry: &DocNode) -> (r: Option<Metadata>)
    ensures
        r is Some <==> ((match entry.spec_get("title".spec_bytes()) {
            Some(n) => n is Scalar,
            None => false,
        }) && (match entry.spec_get("artist".spec_bytes()) {
            Some(n) => n is Scalar,
            None => false,
        })),
{
    let title = match doc_string(entry, key("title")) {
        Some(t) => t,
        None => {
            return None;
        },
    };
    let artist = match doc_string(entry, key("artist")) {
        Some(a) => a,
        None => {
            return None;
        },
    };
    let album = doc_string(entry, key("album"));
    Some(Metadata { title, artist, album })
}

/// The base-60 reading of a colon-separated time literal, in
/// microseconds, as a left-to-right fold: `acc` holds the closed parts,
/// `pv` the open part's value, `pl` its digit count, and in a fraction
/// (`in_frac`) each further digit contributes `scale` microseconds, the
/// first 100 000.  A byte that is neither a digit, a first `.` in its
/// part, nor a `:` after at least one digit reads to nothing, as does an
/// empty part.
pub open spec fn spec_time_fold(
    s: Seq<u8>,
    i: int,
    acc: int,
    pv: int,
    pl: int,
    in_frac: bool,
    scale: int,
) -> Option<int>
    decreases s.len() - i,
{
    if i < 0 || i >= s.len() {
        if pl > 0 {
            Some(acc * 60 + pv)
        } else {
            None
        }
    } else {
        let b = s[i];
        if b == 58 {
            if pl > 0 {
                spec_time_fold(s, i + 1, acc * 60 + pv, 0, 0, false, 0)
            } else {
                None
            }
        } else if b == 46 {
            if in_frac {
                None
            } else {
                spec_time_fold(s, i + 1, acc, pv, pl, true, 100_000)
            }
        } else if 48 <= b <= 57 {
            if in_frac {
                spec_time_fold(s, i + 1, acc, pv + (b - 48) * scale, pl + 1, true, scale / 10)
            } else {
                spec_time_fold(s, i + 1, acc, pv * 10 + (b - 48) * 1_000_000, pl + 1, false, 0)
            }
        } else {
            None
        }
    }
}

/// The value of a whole time literal: the fold from its first byte.
pub open spec fn spec_parse_time(s: Seq<u8>) -> Option<int> {
    spec_time_fold(s, 0, 0, 0, 0, false, 0)
}

/// The fold only grows: whatever the literal reads to is at least the
/// value accumulated at any intermediate state, so a state already past
/// the machine bound means the whole literal is past it.
proof fn lemma_time_fold_monotone(
    s: Seq<u8>,
    i: int,
    acc: int,
    pv: int,
    pl: int,
    in_frac: bool,
    scale: int,
    v: int,
)
    requires
        acc >= 0,
        pv >= 0,
        scale >= 0,
        spec_time_fold(s, i, acc, pv, pl, in_frac, scale) == Some(v),
    ensures
        v >= acc * 60 + pv,
        v >= pv,
        v >= acc,
    decreases s.len() - i,
{
    if i < 0 || i >= s.len() {
    } else {
        let b = s[i];
        if b == 58 {
            lemma_time_fold_monotone(s, i + 1, acc * 60 + pv, 0, 0, false, 0, v);
        } else if b == 46 {
            if !in_frac {
                lemma_time_fold_monotone(s, i + 1, acc, pv, pl, true, 100_000, v);
            }
        } else if 48 <= b <= 57 {
            if in_frac {
                assert((b - 48) * scale >= 0) by (nonlinear_arith)
                    requires
                        b >= 48,
                        scale >= 0,
                ;
                lemma_time_fold_monotone(
                    s,
                    i + 1,
                    acc,
                    pv + (b - 48) * scale,
                    pl + 1,
                    true,
                    scale / 10,
                    v,
                );
            } else {
                lemma_time_fold_monotone(
                    s,
                    i + 1,
                    acc,
                    pv * 10 + (b - 48) * 1_000_000,
                    pl + 1,
                    false,
                    0,
                    v,
                );
            }
        }
    }
}

/// Parses a colon-separated time literal ("1:30" is ninety seconds, and
/// parts may carry a decimal fraction read to microseconds) into
/// microseconds: exactly the well-formed literals whose value fits the
/// machine bound are accepted, and the value is exactly the base-60
/// reading.
pub fn parse_time(s: &Vec<u8>) -> (r: Option<i64>)
    ensures
        (match spec_parse_time(s@) {
            Some(v) => if v <= i64::MAX {
                r == Some(v as i64)
            } else {
                r is None
            },
            None => r is None,
        }),
{
    let mut acc: i64 = 0;
    let mut pv: i64 = 0;
    let mut pl: usize = 0;
    let mut in_frac = false;
    let mut scale: i64 = 0;
    let mut i: usize = 0;
    while i < s.len()
        invariant
            i <= s.len(),
            0 <= acc,
            0 <= pv,
            0 <= scale <= 100_000,
            pl <= i,
            spec_time_fold(s@, i as int, acc as int, pv as int, pl as int, in_frac, scale as int)
                == spec_parse_time(s@),
        decreases s.len() - i,
    {
        let b = s[i];
        if b == 58 {
            if pl == 0 {
                return None;
            }
            let wide: i128 = acc as i128 * 60 + pv as i128;
            if wide > i64::MAX as i128 {
                proof {
                    if spec_parse_time(s@) is Some {
                        lemma_time_fold_monotone(
                            s@,
                            i + 1,
                            acc as int * 60 + pv,
                            0,
                            0,
                            false,
                            0,
                            spec_parse_time(s@).unwrap(),
                        );
                    }
                }
                return None;
            }
            acc = wide as i64;
            pv = 0;
            pl = 0;
            in_frac = false;
            scale = 0;
        } else if b == 46 {
            if in_frac {
                return None;
            }
            in_frac = true;
            scale = 100_000;
        } else if 48 <= b && b <= 57 {
            let d = (b - 48) as i64;
            if in_frac {
                proof {
                    assert(0 <= (b - 48) as int * scale <= 900_000) by (nonlinear_arith)
                        requires
                            48 <= b <= 57,
                            0 <= scale <= 100_000,
                    ;
                }
                let wide: i128 = pv as i128 + d as i128 * scale as i128;
                if wide > i64::MAX as i128 {
                    proof {
                        if spec_parse_time(s@) is Some {
                            lemma_time_fold_monotone(
                                s@,
                                i + 1,
                                acc as int,
                                pv + (b - 48) * scale,
                                pl + 1,
                                true,
                                scale as int / 10,
                                spec_parse_time(s@).unwrap(),
                            );
                        }
                    }
                    return None;
                }
                pv = wide as i64;
                scale = scale / 10;
            } else {
                let wide: i128 = pv as i128 * 10 + d as i128 * 1_000_000;
                if wide > i64::MAX as i128 {
                    proof {
                        if spec_parse_time(s@) is Some {
                            lemma_time_fold_monotone(
                                s@,
                                i + 1,
                                acc as int,
                                pv * 10 + (b - 48) * 1_000_000,
                                pl + 1,
                                false,
                                0,
                                spec_parse_time(s@).unwrap(),
                            );
                        }
                    }
                    return None;
                }
                pv = wide as i64;
            }
            pl = pl + 1;
        } else {
            return None;
        }
        i += 1;
    }
    if pl == 0 {
        return None;
    }
    let total: i128 = acc as i128 * 60 + pv as i128;
    if total > i64::MAX as i128 {
        return None;
    }
    Some(total as i64)
}

} // verus!
