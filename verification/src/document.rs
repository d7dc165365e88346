use vstd::prelude::*;

verus! {

/// One node of a station document: a scalar, a list of nodes, or a
/// mapping from keys to nodes.  Scalars and keys are kept as raw bytes;
/// the surrounding program decodes them where it needs text.
pub enum DocNode {
    Scalar(Vec<u8>),
    List(Vec<Box<DocNode>>),
    Mapping(Vec<(Vec<u8>, Box<DocNode>)>),
}

/// The first value under a key in a mapping's entry list.
pub open spec fn spec_lookup(entries: Seq<(Vec<u8>, Box<DocNode>)>, key: Seq<u8>) -> Option<
    DocNode,
>
    decreases entries.len(),
{
    if entries.len() == 0 {
        None
    } else if entries[0].0@ == key {
        Some(*entries[0].1)
    } else {
        spec_lookup(entries.skip(1), key)
    }
}

/// The scalar items of an entry list, in order, nested nodes skipped.
pub open spec fn spec_scalar_items(items: Seq<Box<DocNode>>) -> Seq<Seq<u8>>
    decreases items.len(),
{
    if items.len() == 0 {
        Seq::empty()
    } else {
        let head = spec_scalar_items(items.drop_last());
        if (*items.last()) is Scalar {
            head.push((*items.last())->Scalar_0@)
        } else {
            head
        }
    }
}

impl DocNode {
    /// The value this node holds under a key: the first matching entry of
    /// a mapping, nothing otherwise.
    pub open spec fn spec_get(&self, key: Seq<u8>) -> Option<DocNode> {
        match self {
            DocNode::Mapping(entries) => spec_lookup(entries@, key),
            _ => None,
        }
    }

    /// The value under a mapping key: the first entry whose key holds
    /// exactly the given bytes.
    pub fn get(&self, key: &Vec<u8>) -> (r: Option<&DocNode>)
        ensures
            match r {
                Some(n) => self.spec_get(key@) == Some(*n),
                None => self.spec_get(key@) is None,
            },
        decreases self,
    {
        match self {
            DocNode::Mapping(entries) => {
                proof {
                    assert(entries@.skip(0) =~= entries@);
                }
                let mut i: usize = 0;
                while i < entries.len()
                    invariant
                        i <= entries.len(),
                        (*self) is Mapping,
                        (*self)->Mapping_0 == *entries,
                        spec_lookup(entries@.skip(i as int), key@) == spec_lookup(
                            entries@,
                            key@,
                        ),
                        forall|k: int| 0 <= k < i ==> (#[trigger] entries@[k]).0@ != key@,
                    decreases entries.len() - i,
                {
                    proof {
                        assert(entries@.skip(i as int).skip(1) =~= entries@.skip(i + 1));
                        assert(entries@.skip(i as int)[0] == entries@[i as int]);
                    }
                    if bytes_eq(&entries[i].0, key) {
                        return Some(&entries[i].1);
                    }
                    i += 1;
                }
                proof {
                    assert(entries@.skip(entries.len() as int).len() == 0);
                }
                None
            },
            _ => None,
        }
    }

    /// Whether this node is a mapping.
    pub fn is_mapping(&self) -> (r: bool)
        ensures
            r <==> self is Mapping,
    {
        match self {
            DocNode::Mapping(_) => true,
            _ => false,
        }
    }

    /// Whether this node is a list.
    pub fn is_list(&self) -> (r: bool)
        ensures
            r <==> self is List,
    {
        match self {
            DocNode::List(_) => true,
            _ => false,
        }
    }

    /// The scalar bytes, where this node is a scalar.
    pub fn as_bytes(&self) -> (r: Option<&Vec<u8>>)
        ensures
            r is Some <==> self is Scalar,
            r is Some ==> *r.unwrap() == (*self)->Scalar_0,
    {
        match self {
            DocNode::Scalar(s) => Some(s),
            _ => None,
        }
    }

    /// The scalar items of a list node, in order, skipping nested nodes;
    /// nothing for any other node.
    pub fn byte_list(&self) -> (r: Vec<Vec<u8>>)
        ensures
            (*self) is List ==> r@.len() == spec_scalar_items((*self)->List_0@).len() && (
            forall|k: int|
                0 <= k < r@.len() ==> (#[trigger] r@[k])@ == spec_scalar_items(
                    (*self)->List_0@,
                )[k]),
            !((*self) is List) ==> r@.len() == 0,
    {
        let mut out: Vec<Vec<u8>> = Vec::new();
        if let DocNode::List(items) = self {
            let mut i: usize = 0;
            while i < items.len()
                invariant
                    i <= items.len(),
                    (*self) is List,
                    (*self)->List_0 == *items,
                    out@.len() == spec_scalar_items(items@.take(i as int)).len(),
                    forall|k: int|
                        0 <= k < out@.len() ==> (#[trigger] out@[k])@ == spec_scalar_items(
                            items@.take(i as int),
                        )[k],
                decreases items.len() - i,
            {
                proof {
                    assert(items@.take(i + 1).drop_last() =~= items@.take(i as int));
                    assert(items@.take(i + 1).last() == items@[i as int]);
                }
                let ghost prev_spec = spec_scalar_items(items@.take(i as int));
                if let DocNode::Scalar(s) = &*items[i] {
                    out.push(s.clone());
                    proof {
                        assert(out@.last()@ == (*items@[i as int])->Scalar_0@);
                        assert(spec_scalar_items(items@.take(i + 1)) == prev_spec.push(
                            (*items@[i as int])->Scalar_0@,
                        ));
                    }
                }
                i += 1;
            }
            proof {
                assert(items@.take(items.len() as int) =~= items@);
            }
        }
        out
    }
}

/// Whether two byte strings are equal.
pub fn bytes_eq(a: &Vec<u8>, b: &Vec<u8>) -> (r: bool)
    ensures
        r <==> a@ == b@,
{
    if a.len() != b.len() {
        proof {
            assert(a@.len() != b@.len());
        }
        return false;
    }
    let mut i: usize = 0;
    while i < a.len()
        invariant
            i <= a.len(),
            a.len() == b.len(),
            forall|k: int| 0 <= k < i ==> a@[k] == b@[k],
        decreases a.len() - i,
    {
        if a[i] != b[i] {
            return false;
        }
        i += 1;
    }
    proof {
        assert(a@ =~= b@);
    }
    true
}

/// One significant line of the document: its indentation depth and its
/// content without the leading spaces.
struct Line {
    indent: usize,
    content: Vec<u8>,
}

/// Splits the text into significant lines: blank lines and comment lines
/// (starting with `#`) are dropped, and each kept line carries its
/// indentation.
/// A single plain line of text: nonempty, no line break, no leading
/// space, and not a comment.
pub open spec fn spec_plain_line(t: Seq<u8>) -> bool {
    &&& t.len() > 0
    &&& (forall|k: int| 0 <= k < t.len() ==> t[k] != 10)
    &&& t[0] != 32
    &&& t[0] != 35
}

fn split_lines(text: &Vec<u8>) -> (lines: Vec<Line>)
    ensures
        text@.len() == 0 ==> lines@.len() == 0,
        spec_plain_line(text@) ==> lines@.len() == 1 && lines@[0].indent == 0
            && lines@[0].content@ == text@,
{
    let mut lines: Vec<Line> = Vec::new();
    let mut i: usize = 0;
    while i < text.len()
        invariant
            i <= text.len(),
            text@.len() == 0 ==> lines@.len() == 0,
            spec_plain_line(text@) ==> ((i == 0 && lines@.len() == 0) || (i == text@.len()
                && lines@.len() == 1 && lines@[0].indent == 0 && lines@[0].content@
                == text@)),
        decreases text.len() - i,
    {
        // find the end of this line
        let start = i;
        let mut end = i;
        while end < text.len() && text[end] != 10
            invariant
                start <= end <= text.len(),
            decreases text.len() - end,
        {
            end += 1;
        }
        // measure the indentation
        let mut pos = start;
        while pos < end && text[pos] == 32
            invariant
                start <= pos <= end,
                end <= text.len(),
                (spec_plain_line(text@) && start == 0) ==> pos == 0,
            decreases end - pos,
        {
            pos += 1;
        }
        // keep the content unless blank or a comment
        if pos < end && text[pos] != 35 {
            let mut content: Vec<u8> = Vec::new();
            let mut k = pos;
            while k < end
                invariant
                    pos <= k <= end,
                    end <= text.len(),
                    content@ == text@.subrange(pos as int, k as int),
                decreases end - k,
            {
                content.push(text[k]);
                proof {
                    assert(content@ =~= text@.subrange(pos as int, k + 1));
                }
                k += 1;
            }
            proof {
                if spec_plain_line(text@) {
                    assert(start == 0 && pos == 0 && end == text@.len());
                    assert(content@ =~= text@);
                }
            }
            lines.push(Line { indent: pos - start, content });
        }
        i = if end < text.len() {
            end + 1
        } else {
            end
        };
    }
    lines
}

/// A byte run with its leading spaces dropped.
pub open spec fn spec_trim_front(s: Seq<u8>) -> Seq<u8>
    decreases s.len(),
{
    if s.len() > 0 && s[0] == 32 {
        spec_trim_front(s.skip(1))
    } else {
        s
    }
}

/// A byte run with its trailing spaces dropped.
pub open spec fn spec_trim_back(s: Seq<u8>) -> Seq<u8>
    decreases s.len(),
{
    if s.len() > 0 && s.last() == 32 {
        spec_trim_back(s.drop_last())
    } else {
        s
    }
}

/// A byte run with the spaces on both ends dropped.
pub open spec fn spec_trim(s: Seq<u8>) -> Seq<u8> {
    spec_trim_back(spec_trim_front(s))
}

/// The bytes of `v` from `from` to `to`, with outer spaces dropped.
fn trimmed(v: &Vec<u8>, from: usize, to: usize) -> (r: Vec<u8>)
    requires
        from <= to <= v.len(),
    ensures
        r@ == spec_trim(v@.subrange(from as int, to as int)),
{
    let mut lo = from;
    let mut hi = to;
    while lo < hi && v[lo] == 32
        invariant
            from <= lo <= hi <= v.len(),
            hi == to,
            spec_trim_front(v@.subrange(from as int, to as int)) == spec_trim_front(
                v@.subrange(lo as int, to as int),
            ),
        decreases hi - lo,
    {
        proof {
            assert(v@.subrange(lo as int, to as int).skip(1) =~= v@.subrange(
                lo + 1,
                to as int,
            ));
        }
        lo += 1;
    }
    proof {
        assert(spec_trim_front(v@.subrange(from as int, to as int)) == v@.subrange(
            lo as int,
            to as int,
        ));
    }
    while hi > lo && v[hi - 1] == 32
        invariant
            from <= lo <= hi <= v.len(),
            hi <= to,
            spec_trim_back(v@.subrange(lo as int, to as int)) == spec_trim_back(
                v@.subrange(lo as int, hi as int),
            ),
        decreases hi,
    {
        proof {
            assert(v@.subrange(lo as int, hi as int).drop_last() =~= v@.subrange(
                lo as int,
                hi - 1,
            ));
        }
        hi -= 1;
    }
    proof {
        assert(spec_trim_back(v@.subrange(lo as int, to as int)) == v@.subrange(
            lo as int,
            hi as int,
        ));
    }
    let mut out: Vec<u8> = Vec::new();
    let mut k = lo;
    while k < hi
        invariant
            lo <= k <= hi <= v.len(),
            out@ =~= v@.subrange(lo as int, k as int),
        decreases hi - k,
    {
        out.push(v[k]);
        k += 1;
    }
    proof {
        assert(out@ =~= v@.subrange(lo as int, hi as int));
    }
    out
}

/// Parses an indentation-structured document: `key: value` entries,
/// `key:` entries opening an indented block, and `- item` list items.
pub fn parse_document(text: &Vec<u8>) -> (doc: DocNode)
    ensures
        doc is Mapping || doc is List,
        doc is Mapping ==> doc->Mapping_0@.len() > 0,
        text@.len() == 0 ==> doc is List && doc->List_0@.len() == 0,
        (spec_plain_line(text@) && !(text@.len() >= 2 && text@[0] == 45 && text@[1] == 32))
            ==> spec_flat_entry(text@, doc),
{
    let lines = split_lines(text);
    let first_indent = if lines.len() > 0 {
        lines[0].indent
    } else {
        0
    };
    let (doc, _) = parse_block(&lines, 0, first_indent);
    doc
}

/// What a single plain `key: value` line parses to: the mapping of the
/// trimmed key to the trimmed scalar value, split at the first colon —
/// or the empty list when the line holds no colon at all.
pub open spec fn spec_flat_entry(c0: Seq<u8>, node: DocNode) -> bool {
    &&& ((exists|c: int| 0 <= c < c0.len() && c0[c] == 58) ==> (exists|c: int|
        {
            &&& 0 <= c < c0.len()
            &&& #[trigger] c0[c] == 58
            &&& (forall|q: int| 0 <= q < c ==> c0[q] != 58)
            &&& node is Mapping
            &&& node->Mapping_0@.len() == 1
            &&& node->Mapping_0@[0].0@ == spec_trim(c0.take(c))
            &&& (*node->Mapping_0@[0].1) is Scalar
            &&& (*node->Mapping_0@[0].1)->Scalar_0@ == spec_trim(c0.skip(c + 1))
        }))
    &&& ((forall|q: int| 0 <= q < c0.len() ==> c0[q] != 58) ==> node is List
        && node->List_0@.len() == 0)
}

/// Parses one block of lines at the given indentation, returning the node
/// and the index of the first line after the block.
fn parse_block(lines: &Vec<Line>, start: usize, indent: usize) -> (r: (DocNode, usize))
    requires
        start <= lines.len(),
    ensures
        start <= r.1 <= lines.len(),
        start < lines.len() ==> r.1 >= start,
        r.0 is Mapping || r.0 is List,
        r.0 is Mapping ==> r.0->Mapping_0@.len() > 0,
        start >= lines.len() ==> r.0 is List && r.0->List_0@.len() == 0,
        (start == 0 && lines@.len() == 1 && lines@[0].indent >= indent && !(
        lines@[0].content@.len() >= 2 && lines@[0].content@[0] == 45
            && lines@[0].content@[1] == 32)) ==> spec_flat_entry(lines@[0].content@, r.0),
    decreases lines.len() - start, 0int,
{
    let mut mapping: Vec<(Vec<u8>, Box<DocNode>)> = Vec::new();
    let mut list: Vec<Box<DocNode>> = Vec::new();
    let mut i = start;
    let ghost flat = start == 0 && lines@.len() == 1 && lines@[0].indent >= indent && !(
    lines@[0].content@.len() >= 2 && lines@[0].content@[0] == 45 && lines@[0].content@[1]
        == 32);
    while i < lines.len() && lines[i].indent >= indent
        invariant
            start <= i <= lines.len(),
            start >= lines.len() ==> mapping@.len() == 0 && list@.len() == 0,
            flat == (start == 0 && lines@.len() == 1 && lines@[0].indent >= indent && !(
            lines@[0].content@.len() >= 2 && lines@[0].content@[0] == 45
                && lines@[0].content@[1] == 32)),
            flat ==> ((i == 0 && mapping@.len() == 0 && list@.len() == 0) || (i == 1 && ((
            exists|c: int|
                {
                    &&& 0 <= c < lines@[0].content@.len()
                    &&& #[trigger] lines@[0].content@[c] == 58
                    &&& (forall|q: int| 0 <= q < c ==> lines@[0].content@[q] != 58)
                    &&& mapping@.len() == 1
                    &&& mapping@[0].0@ == spec_trim(lines@[0].content@.take(c))
                    &&& (*mapping@[0].1) is Scalar
                    &&& (*mapping@[0].1)->Scalar_0@ == spec_trim(
                        lines@[0].content@.skip(c + 1),
                    )
                    &&& list@.len() == 0
                }) || ((forall|q: int|
                0 <= q < lines@[0].content@.len() ==> lines@[0].content@[q] != 58)
                && mapping@.len() == 0 && list@.len() == 0)))),
        decreases lines.len() - i,
    {
        let line = &lines[i];
        let content = &line.content;
        if content.len() >= 2 && content[0] == 45 && content[1] == 32 {
            // a list item: a plain scalar, or `- key: value` opening a
            // mapping whose further fields sit on deeper lines
            let rest = trimmed(content, 2, content.len());
            let mut colon: usize = 0;
            let mut found = false;
            let mut k: usize = 0;
            while k < rest.len()
                invariant
                    k <= rest.len(),
                    found ==> colon < rest.len(),
                decreases rest.len() - k,
            {
                if rest[k] == 58 && !found {
                    colon = k;
                    found = true;
                }
                k += 1;
            }
            if found {
                let key = trimmed(&rest, 0, colon);
                let value = trimmed(&rest, colon + 1, rest.len());
                let mut entries: Vec<(Vec<u8>, Box<DocNode>)> = Vec::new();
                entries.push((key, Box::new(DocNode::Scalar(value))));
                let line_indent = line.indent;
                let next_deeper = i + 1 < lines.len() && lines[i + 1].indent > line_indent;
                if next_deeper {
                    let next_indent = lines[i + 1].indent;
                    let (child, next) = parse_inner(lines, i + 1, next_indent);
                    if let DocNode::Mapping(mut more) = child {
                        entries.append(&mut more);
                    }
                    i = next;
                } else {
                    i += 1;
                }
                list.push(Box::new(DocNode::Mapping(entries)));
            } else {
                list.push(Box::new(DocNode::Scalar(rest)));
                i += 1;
            }
        } else {
            // find a key separator
            let mut colon: usize = 0;
            let mut found = false;
            let mut k: usize = 0;
            while k < content.len()
                invariant
                    k <= content.len(),
                    found ==> colon < content.len(),
                    found ==> content@[colon as int] == 58 && (forall|q: int|
                        0 <= q < colon ==> content@[q] != 58),
                    !found ==> (forall|q: int| 0 <= q < k ==> content@[q] != 58),
                decreases content.len() - k,
            {
                if content[k] == 58 && !found {
                    colon = k;
                    found = true;
                }
                k += 1;
            }
            if !found {
                i += 1;
                continue ;
            }
            let key = trimmed(content, 0, colon);
            let value = trimmed(content, colon + 1, content.len());
            if value.len() > 0 {
                mapping.push((key, Box::new(DocNode::Scalar(value))));
                i += 1;
            } else {
                // a nested block, when the next line indents deeper
                let line_indent = line.indent;
                let next_deeper = i + 1 < lines.len() && lines[i + 1].indent > line_indent;
                if next_deeper {
                    let next_indent = lines[i + 1].indent;
                    let (child, next) = parse_inner(lines, i + 1, next_indent);
                    mapping.push((key, Box::new(child)));
                    i = next;
                } else {
                    mapping.push((key, Box::new(DocNode::Scalar(Vec::new()))));
                    i += 1;
                }
            }
        }
    }
    if mapping.len() > 0 {
        proof {
            if flat && mapping@.len() == 1 {
                let c0 = lines@[0].content@;
                let c = choose|c: int|
                    {
                        &&& 0 <= c < lines@[0].content@.len()
                        &&& #[trigger] lines@[0].content@[c] == 58
                        &&& (forall|q: int| 0 <= q < c ==> lines@[0].content@[q] != 58)
                        &&& mapping@.len() == 1
                        &&& mapping@[0].0@ == spec_trim(lines@[0].content@.take(c))
                        &&& (*mapping@[0].1) is Scalar
                        &&& (*mapping@[0].1)->Scalar_0@ == spec_trim(
                            lines@[0].content@.skip(c + 1),
                        )
                        &&& list@.len() == 0
                    };
                let node = DocNode::Mapping(mapping);
                assert(node->Mapping_0@ == mapping@);
                assert(0 <= c < c0.len() && c0[c] == 58 && (forall|q: int|
                    0 <= q < c ==> c0[q] != 58) && node is Mapping && node->Mapping_0@.len()
                    == 1 && node->Mapping_0@[0].0@ == spec_trim(c0.take(c)) && (
                *node->Mapping_0@[0].1) is Scalar && (*node->Mapping_0@[0].1)->Scalar_0@
                    == spec_trim(c0.skip(c + 1)));
                assert(spec_flat_entry(c0, node));
            }
        }
        (DocNode::Mapping(mapping), i)
    } else {
        proof {
            if flat {
                let node = DocNode::List(list);
                assert(spec_flat_entry(lines@[0].content@, node));
            }
        }
        (DocNode::List(list), i)
    }
}

/// Parses a nested block starting strictly after its header line.
fn parse_inner(lines: &Vec<Line>, start: usize, indent: usize) -> (r: (DocNode, usize))
    requires
        1 <= start <= lines.len(),
    ensures
        start <= r.1 <= lines.len(),
    decreases lines.len() - start, 1int,
{
    parse_block(lines, start, indent)
}


/// Relies on String::from_utf8_lossy: the bytes decoded as text.  On
/// ASCII bytes the characters equal the bytes one for one, as the UTF-8
/// encoding defines; of other bytes nothing is promised.
#[verifier::external_body]
pub fn bytes_to_string(b: &Vec<u8>) -> (r: String)
    ensures
        (forall|k: int| 0 <= k < b@.len() ==> b@[k] < 128) ==> r@.len() == b@.len() && (forall|
            k: int,
        |
            0 <= k < b@.len() ==> r@[k] as int == b@[k] as int),
{
    String::from_utf8_lossy(b).into_owned()
}

} // verus!
