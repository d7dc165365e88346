use vstd::prelude::*;
use vstd::string::StringExecFns;
use vstd::string::StringSliceAdditionalSpecFns;
use crate::document::{bytes_to_string, DocNode};

verus! {

/// Where a station's output goes.
pub enum Output {
    /// The system audio device.
    System,
    /// An encoded file at the given path.
    File(String),
    /// An icecast mount.
    Icecast {
        mount: String,
        host: String,
        schema: String,
        user: String,
        password: Option<String>,
    },
}

/// One station: its definition files and its output.
pub struct RadioInfo {
    pub files: Vec<String>,
    pub output: Output,
}

/// The station index: mount points and their stations.
pub struct RadioIndex {
    pub info: Vec<(String, RadioInfo)>,
}

impl RadioInfo {
    /// A station with no files, playing to the system device.
    pub fn new() -> (r: RadioInfo)
        ensures
            r.files.len() == 0,
            r.output is System,
    {
        RadioInfo { files: Vec::new(), output: Output::System }
    }
}

impl RadioIndex {
    /// An index over the given stations.
    pub fn new(info: Vec<(String, RadioInfo)>) -> (r: RadioIndex)
        ensures
            r.info == info,
    {
        RadioIndex { info }
    }

    /// Whether a mount point is defined.
    pub fn contains_key(&self, station: &String) -> (r: bool)
        ensures
            r <==> exists|i: int|
                0 <= i < self.info.len() && (#[trigger] self.info@[i]).0@ == station@,
    {
        let mut i: usize = 0;
        while i < self.info.len()
            invariant
                i <= self.info.len(),
                forall|k: int| 0 <= k < i ==> (#[trigger] self.info@[k]).0@ != station@,
            decreases self.info.len() - i,
        {
            if self.info[i].0.eq(station) {
                return true;
            }
            i += 1;
        }
        false
    }

    /// All defined mount points, in index order.
    pub fn keys(&self) -> (r: Vec<String>)
        ensures
            r.len() == self.info.len(),
            forall|i: int| 0 <= i < r.len() ==> (#[trigger] r@[i])@ == (self.info@[i]).0@,
    {
        let mut r: Vec<String> = Vec::new();
        let mut i: usize = 0;
        while i < self.info.len()
            invariant
                i <= self.info.len(),
                r.len() == i,
                forall|k: int| 0 <= k < i ==> (#[trigger] r@[k])@ == (self.info@[k]).0@,
            decreases self.info.len() - i,
        {
            r.push(self.info[i].0.clone());
            i += 1;
        }
        r
    }

    /// The definition file list of a station, if the mount is defined.
    pub fn load(&self, station: &String) -> (r: Option<Vec<String>>)
        ensures
            r is Some <==> exists|i: int|
                0 <= i < self.info.len() && (#[trigger] self.info@[i]).0@ == station@,
            r is Some ==> exists|i: int|
                0 <= i < self.info.len() && (#[trigger] self.info@[i]).0@ == station@
                    && r.unwrap().deep_view() == self.info@[i].1.files.deep_view(),
    {
        let mut i: usize = 0;
        while i < self.info.len()
            invariant
                i <= self.info.len(),
                forall|k: int| 0 <= k < i ==> (#[trigger] self.info@[k]).0@ != station@,
            decreases self.info.len() - i,
        {
            if self.info[i].0.eq(station) {
                let files = self.info[i].1.files.clone();
                proof {
                    assert(files.deep_view() =~= self.info@[i as int].1.files.deep_view());
                }
                return Some(files);
            }
            i += 1;
        }
        None
    }
}


impl RadioIndex {
    /// Assembles the station index from its parsed document: exactly the
    /// documents with a `stations` mapping are accepted; each entry
    /// becomes a mount (its key, decoded) whose files are the entry's
    /// `files` list (decoded) and whose output is the top level's
    /// settings overridden by the station's own — the system device when
    /// no level names one, an icecast mount when the station carries an
    /// `icecast` mapping without an `output` literal.
    pub fn from_doc(doc: &DocNode) -> (r: Option<RadioIndex>)
        ensures
            r is Some <==> (match doc.spec_get("stations".spec_bytes()) {
                Some(n) => n is Mapping,
                None => false,
            }),
            r is Some ==> ({
                let entries = doc.spec_get(
                    "stations".spec_bytes(),
                ).unwrap()->Mapping_0@;
                let info = r.unwrap().info@;
                &&& info.len() == entries.len()
                &&& forall|i: int|
                    0 <= i < entries.len() ==> {
                        let st = *(#[trigger] entries[i]).1;
                        &&& (spec_ascii_bytes(entries[i].0@) ==> info[i].0@.len()
                            == entries[i].0@.len() && (forall|k: int|
                            0 <= k < entries[i].0@.len() ==> ((#[trigger] info[i].0@[k]) as int)
                                == entries[i].0@[k] as int))
                        &&& (match st.spec_get("files".spec_bytes()) {
                            Some(fl) => fl is List ==> info[i].1.files@.len()
                                == crate::document::spec_scalar_items(fl->List_0@).len(),
                            None => info[i].1.files@.len() == 0,
                        })
                        &&& ((spec_level_untouched(*doc) && spec_level_untouched(st))
                            ==> info[i].1.output is System)
                        &&& (spec_level_icecast(st) ==> info[i].1.output is Icecast)
                    }
            }),
    {
        let stations_key = doc_key("stations");
        let stations = match doc.get(&stations_key) {
            Some(s) => s,
            None => {
                return None;
            },
        };
        if !stations.is_mapping() {
            return None;
        }
        let ghost sentries = (*stations)->Mapping_0@;
        let mut info: Vec<(String, RadioInfo)> = Vec::new();
        if let DocNode::Mapping(entries) = stations {
            proof {
                assert(sentries == entries@);
            }
            let mut i: usize = 0;
            while i < entries.len()
                invariant
                    i <= entries.len(),
                    sentries == entries@,
                    info.len() == i,
                    forall|q: int|
                        0 <= q < i ==> {
                            let st = *(#[trigger] sentries[q]).1;
                            &&& (spec_ascii_bytes(sentries[q].0@) ==> info@[q].0@.len()
                                == sentries[q].0@.len() && (forall|k: int|
                                0 <= k < sentries[q].0@.len() ==> ((
                                #[trigger] info@[q].0@[k]) as int) == sentries[q].0@[k] as int))
                            &&& (match st.spec_get("files".spec_bytes()) {
                                Some(fl) => fl is List ==> info@[q].1.files@.len()
                                    == crate::document::spec_scalar_items(fl->List_0@).len(),
                                None => info@[q].1.files@.len() == 0,
                            })
                            &&& ((spec_level_untouched(*doc) && spec_level_untouched(st))
                                ==> info@[q].1.output is System)
                            &&& (spec_level_icecast(st) ==> info@[q].1.output is Icecast)
                        },
                decreases entries.len() - i,
            {
                let mount = bytes_to_string(&entries[i].0);
                let station = &*entries[i].1;
                let mut ri = RadioInfo::new();
                let files_key = doc_key("files");
                if let Some(files) = station.get(&files_key) {
                    let items = files.byte_list();
                    let mut k: usize = 0;
                    while k < items.len()
                        invariant
                            k <= items.len(),
                            ri.files.len() == k,
                            ri.output is System,
                        decreases items.len() - k,
                    {
                        ri.files.push(bytes_to_string(&items[k]));
                        k += 1;
                    }
                }
                apply_output(&mut ri, doc, &mount);
                apply_output(&mut ri, station, &mount);
                let ghost prev = info@;
                info.push((mount, ri));
                proof {
                    assert(forall|q: int| 0 <= q < i ==> #[trigger] info@[q] == prev[q]);
                    assert(info@[i as int].1 == ri);
                }
                i += 1;
            }
        }
        Some(RadioIndex { info })
    }
}

/// Applies one document level's output settings to a station: an
/// `icecast` mapping first, then an `output` literal, so the literal wins
/// within a level.
fn apply_output(ri: &mut RadioInfo, doc: &DocNode, mount: &String)
    ensures
        final(ri).files == old(ri).files,
        spec_level_untouched(*doc) ==> final(ri).output == old(ri).output,
        spec_level_icecast(*doc) ==> final(ri).output is Icecast,
{
    let icecast_key = doc_key("icecast");
    if let Some(ice) = doc.get(&icecast_key) {
        if ice.is_mapping() {
            ri.output = icecast_output(ice, mount);
        }
    }
    let output_key = doc_key("output");
    if let Some(out) = doc.get(&output_key) {
        if let DocNode::Scalar(bytes) = out {
            let text = bytes_to_string(bytes);
            if let Some(parsed) = Output::from_str(&text) {
                ri.output = parsed;
            }
        }
    }
}

/// Builds an icecast output from its mapping: host, schema and user fall
/// back to the usual defaults, the password stays optional, and the mount
/// point is the station's mount behind a slash.
fn icecast_output(ice: &DocNode, mount: &String) -> (r: Output)
    ensures
        r is Icecast,
{
    let host = match scalar_string(ice, "host") {
        Some(h) => h,
        None => String::from_str("localhost:8000"),
    };
    let schema = match scalar_string(ice, "schema") {
        Some(x) => x,
        None => String::from_str("http"),
    };
    let user = match scalar_string(ice, "user") {
        Some(u) => u,
        None => String::from_str("source"),
    };
    let password = scalar_string(ice, "password");
    let full_mount = String::from_str("/").concat(mount.as_str());
    Output::Icecast { mount: full_mount, host, schema, user, password }
}

/// Reads a scalar under a key as text.
fn scalar_string(doc: &DocNode, word: &str) -> Option<String> {
    let k = doc_key(word);
    match doc.get(&k) {
        Some(node) => match node.as_bytes() {
            Some(b) => Some(bytes_to_string(b)),
            None => None,
        },
        None => None,
    }
}

/// The bytes of an ASCII key word.
fn doc_key(word: &str) -> (r: Vec<u8>)
    ensures
        r@ == word.spec_bytes(),
{
    let bytes = word.as_bytes();
    let mut out: Vec<u8> = Vec::new();
    let mut i: usize = 0;
    while i < bytes.len()
        invariant
            i <= bytes.len(),
            out@ =~= bytes@.take(i as int),
        decreases bytes.len() - i,
    {
        out.push(bytes[i]);
        i += 1;
    }
    proof {
        assert(out@ =~= bytes@);
    }
    out
}

/// Whether every byte is ASCII.
pub open spec fn spec_ascii_bytes(b: Seq<u8>) -> bool {
    forall|k: int| 0 <= k < b.len() ==> #[trigger] b[k] < 128
}

/// What one document level does to a station's output, by the keys it
/// carries: with neither an `icecast` mapping nor an `output` scalar the
/// output stands; with an `icecast` mapping and no `output` scalar it
/// becomes an icecast mount.
pub open spec fn spec_level_untouched(doc: DocNode) -> bool {
    &&& (match doc.spec_get("icecast".spec_bytes()) {
        Some(n) => !(n is Mapping),
        None => true,
    })
    &&& (match doc.spec_get("output".spec_bytes()) {
        Some(n) => !(n is Scalar),
        None => true,
    })
}

/// Whether a level forces the icecast output: an `icecast` mapping with
/// no `output` literal after it.
pub open spec fn spec_level_icecast(doc: DocNode) -> bool {
    &&& (match doc.spec_get("icecast".spec_bytes()) {
        Some(n) => n is Mapping,
        None => false,
    })
    &&& (match doc.spec_get("output".spec_bytes()) {
        Some(n) => !(n is Scalar),
        None => true,
    })
}

/// Whether every character of a text is ASCII.
pub open spec fn spec_ascii(s: Seq<char>) -> bool {
    forall|k: int| 0 <= k < s.len() ==> ((#[trigger] s[k]) as int) < 128
}

/// The position of the first `:` in a text, if any.
pub open spec fn spec_first_colon(s: Seq<char>) -> Option<int>
    decreases s.len(),
{
    if s.len() == 0 {
        None
    } else if s[0] == ':' {
        Some(0)
    } else {
        match spec_first_colon(s.skip(1)) {
            Some(c) => Some(c + 1),
            None => None,
        }
    }
}

/// A position holding `:` with none earlier is the first colon.
proof fn lemma_first_colon_at(s: Seq<char>, c: int)
    requires
        0 <= c < s.len(),
        s[c] == ':',
        forall|k: int| 0 <= k < c ==> (#[trigger] s[k]) != ':',
    ensures
        spec_first_colon(s) == Some(c),
    decreases s.len(),
{
    if c > 0 {
        lemma_first_colon_at(s.skip(1), c - 1);
    }
}

/// A text with no `:` anywhere has no first colon.
proof fn lemma_no_colon(s: Seq<char>)
    requires
        forall|k: int| 0 <= k < s.len() ==> (#[trigger] s[k]) != ':',
    ensures
        spec_first_colon(s) is None,
    decreases s.len(),
{
    if s.len() > 0 {
        lemma_no_colon(s.skip(1));
    }
}

impl Output {
    /// Parses an output literal: a bare `play` or `system` names the
    /// device; `file:PATH` names a file, as does any other bare word
    /// without a colon; a colon after anything but `file` is rejected.
    /// The icecast output is not a literal: it comes from the station
    /// document's `icecast` mapping.
    pub fn from_str(text: &String) -> (r: Option<Output>)
        ensures
            text@ == "play"@ || text@ == "system"@ ==> r == Some(Output::System),
            r is Some ==> !(r.unwrap() is Icecast),
            (spec_ascii(text@) && text@ != "play"@ && text@ != "system"@) ==> (match
                spec_first_colon(text@) {
                None => r is Some && r.unwrap() is File && r.unwrap()->File_0@ == text@,
                Some(c) => if text@.take(c) == "file"@ {
                    r is Some && r.unwrap() is File && r.unwrap()->File_0@ == text@.skip(c + 1)
                } else {
                    r is None
                },
            }),
    {
        let sys = String::from_str("system");
        let play = String::from_str("play");
        if text.eq(&sys) || text.eq(&play) {
            return Some(Output::System);
        }
        let bytes = string_bytes(text);
        let mut i: usize = 0;
        let mut colon: Option<usize> = None;
        while i < bytes.len()
            invariant
                i <= bytes.len(),
                bytes@.len() <= text@.len() || !spec_ascii(text@),
                spec_ascii(text@) ==> bytes@.len() == text@.len() && (forall|k: int|
                    0 <= k < text@.len() ==> (#[trigger] bytes@[k]) as int == text@[k] as int),
                match colon {
                    Some(c) => c < i && bytes@[c as int] == 58 && (forall|k: int|
                        0 <= k < c ==> #[trigger] bytes@[k] != 58),
                    None => forall|k: int| 0 <= k < i ==> #[trigger] bytes@[k] != 58,
                },
            decreases bytes.len() - i,
        {
            if bytes[i] == 58 && colon.is_none() {
                colon = Some(i);
            }
            i += 1;
        }
        proof {
            if spec_ascii(text@) {
                assert forall|k: int| 0 <= k < text@.len() implies ((#[trigger] text@[k]) == ':'
                    <==> bytes@[k] == 58) by {
                    assert(bytes@[k] as int == text@[k] as int);
                    assert((':' as int) == 58);
                }
                match colon {
                    Some(c) => {
                        lemma_first_colon_at(text@, c as int);
                    },
                    None => {
                        lemma_no_colon(text@);
                    },
                }
            }
        }
        match colon {
            Some(c) => {
                let head = take_string(&bytes, c);
                let file_word = String::from_str("file");
                if head.eq(&file_word) {
                    let rest = skip_string(&bytes, c + 1);
                    proof {
                        if spec_ascii(text@) {
                            assert(head@ =~= text@.take(c as int));
                            assert(rest@ =~= text@.skip(c as int + 1));
                        }
                    }
                    Some(Output::File(rest))
                } else {
                    proof {
                        if spec_ascii(text@) {
                            assert(head@.len() == c);
                            if text@.take(c as int) == "file"@ {
                                assert(head@ =~= text@.take(c as int));
                                assert(false);
                            }
                        }
                    }
                    None
                }
            },
            None => Some(Output::File(clone_string(text))),
        }
    }
}

/// Relies on String::as_bytes: the bytes of the string.  On ASCII text
/// the bytes are the characters one for one, as the UTF-8 encoding
/// defines; of other text nothing is promised.
#[verifier::external_body]
fn string_bytes(s: &String) -> (r: Vec<u8>)
    ensures
        spec_ascii(s@) ==> r@.len() == s@.len() && (forall|k: int|
            0 <= k < s@.len() ==> (#[trigger] r@[k]) as int == s@[k] as int),
{
    s.as_bytes().to_vec()
}

/// Relies on String::from_utf8_lossy: the prefix of `bytes` of length `n`
/// decoded as text.  On ASCII bytes the characters equal the bytes one for
/// one; of other bytes nothing is promised.
#[verifier::external_body]
fn take_string(bytes: &Vec<u8>, n: usize) -> (r: String)
    requires
        n <= bytes.len(),
    ensures
        (forall|k: int| 0 <= k < n ==> #[trigger] bytes@[k] < 128) ==> r@.len() == n && (
        forall|k: int| 0 <= k < n ==> (#[trigger] r@[k]) as int == bytes@[k] as int),
{
    String::from_utf8_lossy(&bytes[..n]).into_owned()
}

/// Relies on String::from_utf8_lossy: the suffix of `bytes` from `n` on,
/// decoded as text.  On ASCII bytes the characters equal the bytes one for
/// one; of other bytes nothing is promised.
#[verifier::external_body]
fn skip_string(bytes: &Vec<u8>, n: usize) -> (r: String)
    requires
        n <= bytes.len(),
    ensures
        (forall|k: int| n <= k < bytes@.len() ==> #[trigger] bytes@[k] < 128) ==> r@.len()
            == bytes@.len() - n && (forall|k: int|
            0 <= k < bytes@.len() - n ==> (#[trigger] r@[k]) as int == bytes@[n + k] as int),
{
    String::from_utf8_lossy(&bytes[n..]).into_owned()
}

/// A copy of a string with the same characters.
fn clone_string(s: &String) -> (r: String)
    ensures
        r@ == s@,
{
    s.clone()
}

} // verus!
