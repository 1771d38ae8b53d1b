//! Extraction of the essential fields from an M17 protocol line.
//!
//! A line is only considered when it carries the checksum-passed marker;
//! the destination, source, type and metadata fields are then cut out and
//! rewritten as short display lines.  Everything works at the level of
//! character sequences.

use vstd::prelude::*;

verus! {

/// `needle` occurs in `hay` starting exactly at `at`.
pub open spec fn matches_at(hay: Seq<char>, needle: Seq<char>, at: int) -> bool {
    &&& 0 <= at
    &&& at + needle.len() <= hay.len()
    &&& hay.subrange(at, at + needle.len()) == needle
}

/// `needle` occurs somewhere in `hay`.
pub open spec fn occurs(hay: Seq<char>, needle: Seq<char>) -> bool {
    exists|at: int| matches_at(hay, needle, at)
}

/// `needle` occurs at `at` and nowhere earlier.
pub open spec fn found_at(hay: Seq<char>, needle: Seq<char>, at: int) -> bool {
    &&& matches_at(hay, needle, at)
    &&& forall|j: int| 0 <= j < at ==> !matches_at(hay, needle, j)
}

/// The position of the first occurrence; meaningful only when one occurs.
pub open spec fn find_index(hay: Seq<char>, needle: Seq<char>) -> int {
    choose|at: int| found_at(hay, needle, at)
}

/// A first occurrence is unique, so it is the `find_index`.
pub proof fn lemma_find_index(hay: Seq<char>, needle: Seq<char>, at: int)
    requires
        found_at(hay, needle, at),
    ensures
        occurs(hay, needle),
        find_index(hay, needle) == at,
{
    assert(matches_at(hay, needle, at));
    let b = choose|j: int| found_at(hay, needle, j);
    assert(found_at(hay, needle, b));
    if b < at {
        assert(matches_at(hay, needle, b));
        assert(false);
    }
    if at < b {
        assert(matches_at(hay, needle, at));
        assert(false);
    }
}

/// Finds the first occurrence of `needle` in `hay`, by characters.
#[verifier::loop_isolation(false)]
fn find_sub(hay: &str, needle: &str) -> (r: Option<usize>)
    ensures
        r matches Some(at) ==> found_at(hay@, needle@, at as int),
        r is None ==> !occurs(hay@, needle@),
{
    let n = hay.unicode_len();
    let m = needle.unicode_len();
    if m > n {
        proof {
            assert forall|at: int| !matches_at(hay@, needle@, at) by {}
        }
        return None;
    }
    let mut at: usize = 0;
    while at <= n - m
        invariant
            m <= n,
            n == hay@.len(),
            m == needle@.len(),
            0 <= at <= n - m + 1,
            forall|j: int| 0 <= j < at ==> !matches_at(hay@, needle@, j),
        decreases n - m + 1 - at,
    {
        let mut j: usize = 0;
        let mut ok = true;
        while ok && j < m
            invariant
                0 <= j <= m,
                at + m <= n,
                ok <==> (forall|k: int| 0 <= k < j ==> hay@[at + k] == needle@[k]),
            decreases m - j,
        {
            if hay.get_char(at + j) != needle.get_char(j) {
                ok = false;
            }
            j += 1;
        }
        if ok {
            proof {
                assert(j == m);
                assert(hay@.subrange(at as int, at as int + m) =~= needle@);
            }
            return Some(at);
        }
        proof {
            assert(!matches_at(hay@, needle@, at as int)) by {
                if matches_at(hay@, needle@, at as int) {
                    let k = choose|k: int| 0 <= k < j && hay@[at + k] != needle@[k];
                    assert(hay@.subrange(at as int, at as int + m)[k] == needle@[k]);
                }
            }
        }
        at += 1;
    }
    proof {
        assert forall|at2: int| !matches_at(hay@, needle@, at2) by {
            if 0 <= at2 <= n - m {
            }
        }
    }
    None
}

/// The characters the field values are trimmed of.
pub open spec fn is_space_char(c: char) -> bool {
    c == ' ' || c == '\t' || c == '\r' || c == '\n'
}

/// How many leading whitespace characters a sequence has.
pub open spec fn leading_spaces(s: Seq<char>) -> int
    decreases s.len(),
{
    if s.len() > 0 && is_space_char(s[0]) {
        1 + leading_spaces(s.drop_first())
    } else {
        0
    }
}

/// How many trailing whitespace characters a sequence has.
pub open spec fn trailing_spaces(s: Seq<char>) -> int
    decreases s.len(),
{
    if s.len() > 0 && is_space_char(s.last()) {
        1 + trailing_spaces(s.drop_last())
    } else {
        0
    }
}

/// The sequence without its leading and trailing whitespace.
pub open spec fn spec_trim(s: Seq<char>) -> Seq<char> {
    let a = leading_spaces(s);
    let b = s.len() - trailing_spaces(s);
    if a <= b {
        s.subrange(a, b)
    } else {
        Seq::empty()
    }
}

/// A prefix of whitespace ending at the first non-space (or the end) is
/// exactly the leading whitespace count.
proof fn lemma_leading_spaces(s: Seq<char>, k: int)
    requires
        0 <= k <= s.len(),
        forall|j: int| 0 <= j < k ==> is_space_char(#[trigger] s[j]),
        k == s.len() || !is_space_char(s[k]),
    ensures
        leading_spaces(s) == k,
    decreases k,
{
    if k > 0 {
        let rest = s.drop_first();
        assert forall|j: int| 0 <= j < k - 1 implies is_space_char(#[trigger] rest[j]) by {
            assert(rest[j] == s[j + 1]);
        }
        if k - 1 < rest.len() {
            assert(rest[k - 1] == s[k]);
        }
        lemma_leading_spaces(rest, k - 1);
    }
}

/// A suffix of whitespace starting at the last non-space is exactly the
/// trailing whitespace count.
proof fn lemma_trailing_spaces(s: Seq<char>, k: int)
    requires
        0 <= k <= s.len(),
        forall|j: int| s.len() - k <= j < s.len() ==> is_space_char(#[trigger] s[j]),
        k == s.len() || !is_space_char(s[s.len() - k - 1]),
    ensures
        trailing_spaces(s) == k,
    decreases k,
{
    if k > 0 {
        assert(is_space_char(s.last()));
        let rest = s.drop_last();
        assert forall|j: int| rest.len() - (k - 1) <= j < rest.len() implies is_space_char(
            #[trigger] rest[j],
        ) by {
            assert(rest[j] == s[j]);
        }
        if k - 1 < rest.len() {
            assert(rest[rest.len() - (k - 1) - 1] == s[s.len() - k - 1]);
        }
        lemma_trailing_spaces(rest, k - 1);
    }
}

fn is_space_exec(c: char) -> (b: bool)
    ensures
        b == is_space_char(c),
{
    c == ' ' || c == '\t' || c == '\r' || c == '\n'
}

/// Strips leading and trailing whitespace, by characters.
#[verifier::loop_isolation(false)]
fn trim_str(s: &str) -> (r: String)
    ensures
        r@ == spec_trim(s@),
{
    let n = s.unicode_len();
    let mut start: usize = 0;
    while start < n && is_space_exec(s.get_char(start))
        invariant
            n == s@.len(),
            0 <= start <= n,
            forall|j: int| 0 <= j < start ==> is_space_char(#[trigger] s@[j]),
        decreases n - start,
    {
        start += 1;
    }
    let mut end: usize = n;
    while end > start && is_space_exec(s.get_char(end - 1))
        invariant
            n == s@.len(),
            0 <= start <= end <= n,
            forall|j: int| end <= j < n ==> is_space_char(#[trigger] s@[j]),
        decreases end,
    {
        end -= 1;
    }
    proof {
        lemma_leading_spaces(s@, start as int);
        if end > start {
            lemma_trailing_spaces(s@, n as int - end as int);
        } else {
            assert(start == end);
            if start < n {
                assert(is_space_char(s@[start as int]));
                assert(false);
            }
            lemma_trailing_spaces(s@, n as int);
            assert(spec_trim(s@) =~= s@.subrange(start as int, end as int));
        }
    }
    let sub = s.substring_char(start, end);
    String::from_str(sub)
}

/// Where a field value ends inside the rest of the line: at the first of a
/// fixed list of markers, tried in this order, or at the end of the line.
pub open spec fn field_value_end(rem: Seq<char>) -> int {
    if occurs(rem, " DST:"@) {
        find_index(rem, " DST:"@)
    } else if occurs(rem, " SRC:"@) {
        find_index(rem, " SRC:"@)
    } else if occurs(rem, " TYPE:"@) {
        find_index(rem, " TYPE:"@)
    } else if occurs(rem, " META:"@) {
        find_index(rem, " META:"@)
    } else if occurs(rem, " NONCE:"@) {
        find_index(rem, " NONCE:"@)
    } else if occurs(rem, " CRC:"@) {
        find_index(rem, " CRC:"@)
    } else if occurs(rem, " LSF_CRC"@) {
        find_index(rem, " LSF_CRC"@)
    } else {
        rem.len() as int
    }
}

/// The value of a labeled field: everything after the label up to the next
/// field marker, trimmed; an all-whitespace value counts as absent.
pub open spec fn spec_extract_field(line: Seq<char>, field: Seq<char>) -> Option<Seq<char>> {
    if !occurs(line, field) {
        None
    } else {
        let value_start = find_index(line, field) + field.len();
        let rem = line.subrange(value_start, line.len() as int);
        let value = spec_trim(rem.subrange(0, field_value_end(rem)));
        if value.len() == 0 {
            None
        } else {
            Some(value)
        }
    }
}

/// Extracts a labeled field's value from a protocol line.
pub fn extract_field(line: &str, field: &str) -> (r: Option<String>)
    ensures
        match r {
            Some(v) => spec_extract_field(line@, field@) == Some(v@),
            None => spec_extract_field(line@, field@) is None,
        },
{
    let start = match find_sub(line, field) {
        Some(at) => at,
        None => {
            return None;
        },
    };
    proof {
        lemma_find_index(line@, field@, start as int);
    }
    let n = line.unicode_len();
    let flen = field.unicode_len();
    let value_start = start + flen;
    let rem = line.substring_char(value_start, n);
    let end: usize = if let Some(e) = find_sub(rem, " DST:") {
        proof {
            lemma_find_index(rem@, " DST:"@, e as int);
        }
        e
    } else if let Some(e) = find_sub(rem, " SRC:") {
        proof {
            lemma_find_index(rem@, " SRC:"@, e as int);
        }
        e
    } else if let Some(e) = find_sub(rem, " TYPE:") {
        proof {
            lemma_find_index(rem@, " TYPE:"@, e as int);
        }
        e
    } else if let Some(e) = find_sub(rem, " META:") {
        proof {
            lemma_find_index(rem@, " META:"@, e as int);
        }
        e
    } else if let Some(e) = find_sub(rem, " NONCE:") {
        proof {
            lemma_find_index(rem@, " NONCE:"@, e as int);
        }
        e
    } else if let Some(e) = find_sub(rem, " CRC:") {
        proof {
            lemma_find_index(rem@, " CRC:"@, e as int);
        }
        e
    } else if let Some(e) = find_sub(rem, " LSF_CRC") {
        proof {
            lemma_find_index(rem@, " LSF_CRC"@, e as int);
        }
        e
    } else {
        rem.unicode_len()
    };
    proof {
        assert(end as int == field_value_end(rem@));
    }
    let value_sub = rem.substring_char(0, end);
    proof {
        assert(value_sub@ =~= rem@.subrange(0, field_value_end(rem@)));
    }
    let value = trim_str(value_sub);
    if value.as_str().unicode_len() == 0 {
        None
    } else {
        Some(value)
    }
}

/// The display message built from a line's fields: one short line per
/// present field, metadata last and without a line break.
pub open spec fn spec_message(line: Seq<char>) -> Seq<char> {
    let dst = match spec_extract_field(line, "DST:"@) {
        Some(v) => "To: "@ + v + "\n"@,
        None => Seq::<char>::empty(),
    };
    let src = match spec_extract_field(line, "SRC:"@) {
        Some(v) => "From: "@ + v + "\n"@,
        None => Seq::<char>::empty(),
    };
    let typ = match spec_extract_field(line, "TYPE:"@) {
        Some(v) => "Type: "@ + v + "\n"@,
        None => Seq::<char>::empty(),
    };
    let meta = match spec_extract_field(line, "META:"@) {
        Some(v) => "Meta: "@ + v,
        None => Seq::<char>::empty(),
    };
    dst + src + typ + meta
}

/// What parsing a protocol line yields: nothing unless the line carries
/// the checksum-passed marker, nothing when no field is present, and the
/// assembled display message otherwise.
pub open spec fn spec_parse_m17_line(line: Seq<char>) -> Option<Seq<char>> {
    if !occurs(line, "LSF_CRC_OK"@) {
        None
    } else if spec_message(line).len() == 0 {
        None
    } else {
        Some(spec_message(line))
    }
}

/// Parses an M17 protocol line and extracts destination, source, type and
/// metadata as a short display message.
pub fn parse_m17_line(line: &str) -> (r: Option<String>)
    ensures
        match r {
            Some(v) => spec_parse_m17_line(line@) == Some(v@),
            None => spec_parse_m17_line(line@) is None,
        },
{
    match find_sub(line, "LSF_CRC_OK") {
        Some(at) => {
            proof {
                lemma_find_index(line@, "LSF_CRC_OK"@, at as int);
            }
        },
        None => {
            return None;
        },
    }
    let mut result = String::new();
    if let Some(dst) = extract_field(line, "DST:") {
        result.append("To: ");
        result.append(dst.as_str());
        result.append("\n");
    }
    if let Some(src) = extract_field(line, "SRC:") {
        result.append("From: ");
        result.append(src.as_str());
        result.append("\n");
    }
    if let Some(typ) = extract_field(line, "TYPE:") {
        result.append("Type: ");
        result.append(typ.as_str());
        result.append("\n");
    }
    if let Some(meta) = extract_field(line, "META:") {
        result.append("Meta: ");
        result.append(meta.as_str());
    }
    proof {
        assert(result@ =~= spec_message(line@));
    }
    if result.as_str().unicode_len() == 0 {
        None
    } else {
        Some(result)
    }
}

} // verus!
