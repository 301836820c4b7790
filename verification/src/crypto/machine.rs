//! What ties an account to a machine: the machine's stable name and its fingerprint.

use vstd::prelude::*;
use vstd::slice::*;
use vstd::utf8::*;

use crate::crypto::hash::sha256;
use crate::crypto::primitives::sha256_of;
use crate::util::bytes::{append_bytes, bytes_of};
use crate::util::hex::{encode, hex_text};
use crate::util::text::{
    chars_of, contains_text, drop_trailing, is_white, law_end_is_dropped, occurs_in, option_string,
    split_at_char,
    split_on, text_of, texts, trim_text, trim_white, utf8_lossy, lossy_text, white_space,
};

verus! {

/// The name of a machine that has none that can be read.
pub const UNKNOWN_MACHINE: &'static str = "unknown-machine";

/// The first of the given texts that is not blank, without white space at its ends.
pub open spec fn first_filled(found: Seq<Option<Seq<char>>>) -> Option<Seq<char>>
    decreases found.len(),
{
    if found.len() == 0 {
        None
    } else if found[0] is Some && trim_text(found[0]->0).len() > 0 {
        Some(trim_text(found[0]->0))
    } else {
        first_filled(found.drop_first())
    }
}

/// The contents of files that may be missing.
pub open spec fn file_texts(found: Seq<Option<String>>) -> Seq<Option<Seq<char>>> {
    found.map_values(|o: Option<String>| option_string(o))
}

/// The stable name of a machine that keeps it in a file: the first of the files that
/// holds one.
pub fn name_in_files(found: &Vec<Option<String>>) -> (r: Option<String>)
    ensures
        option_string(r) == first_filled(file_texts(found@)),
{
    let mut i: usize = 0;
    assert(file_texts(found@).skip(0) =~= file_texts(found@));
    while i < found.len()
        invariant
            i <= found@.len(),
            first_filled(file_texts(found@)) == first_filled(file_texts(found@).skip(i as int)),
        decreases found@.len() - i,
    {
        assert(file_texts(found@).skip(i as int).drop_first() =~= file_texts(found@).skip(i + 1));
        assert(file_texts(found@).skip(i as int)[0] == option_string(found@[i as int]));
        if let Some(text) = &found[i] {
            let chars: Vec<char> = chars_of(text.as_str());
            let trimmed: &[char] = trim_white(chars.as_slice());
            if trimmed.len() > 0 {
                return Some(text_of(trimmed));
            }
        }
        i = i + 1;
    }
    None
}

/// A line of a listing: what stands before a line feed, less a carriage return right
/// before it; the last line may lack its line feed.
pub open spec fn line_at(pieces: Seq<Seq<char>>, i: int) -> Seq<char> {
    let p = pieces[i];
    if i < pieces.len() - 1 && p.len() > 0 && p.last() == '\r' {
        p.drop_last()
    } else {
        p
    }
}

/// The first line, from the one numbered `i` on, in which `needle` occurs.
pub open spec fn line_with(pieces: Seq<Seq<char>>, needle: Seq<char>, i: int) -> Option<Seq<char>>
    decreases pieces.len() - i,
{
    if i < 0 || i >= pieces.len() {
        None
    } else if occurs_in(needle, line_at(pieces, i)) {
        Some(line_at(pieces, i))
    } else {
        line_with(pieces, needle, i + 1)
    }
}

/// The first line in which `needle` occurs.
fn find_line(text: &[char], needle: &[char]) -> (r: Option<Vec<char>>)
    requires
        needle@.len() > 0,
    ensures
        match r {
            Some(l) => line_with(split_at_char(text@, '\n'), needle@, 0) == Some(l@),
            None => line_with(split_at_char(text@, '\n'), needle@, 0) is None,
        },
{
    let pieces: Vec<Vec<char>> = split_on(text, '\n');
    let ghost all = split_at_char(text@, '\n');
    let mut i: usize = 0;
    while i < pieces.len()
        invariant
            i <= pieces@.len(),
            texts(pieces@) == all,
            all == split_at_char(text@, '\n'),
            line_with(all, needle@, 0) == line_with(all, needle@, i as int),
        decreases pieces@.len() - i,
    {
        let piece: &Vec<char> = &pieces[i];
        assert(all[i as int] == piece@);
        assert(all.len() == pieces@.len());
        let line: &[char] = if i < pieces.len() - 1 && piece.len() > 0 && piece[piece.len() - 1]
            == '\r' {
            slice_subrange(piece.as_slice(), 0, piece.len() - 1)
        } else {
            piece.as_slice()
        };
        assert(line@ =~= line_at(all, i as int));
        if contains_text(line, needle) {
            return Some(slice_to_vec(line));
        }
        i = i + 1;
    }
    assert(all.len() == pieces@.len());
    None
}

/// The name in a listing of `ioreg`: in the first line that tells of
/// `IOPlatformUUID`, what stands between the third and the fourth quotation mark.
pub open spec fn ioreg_name(text: Seq<char>) -> Option<Seq<char>> {
    match line_with(split_at_char(text, '\n'), "IOPlatformUUID"@, 0) {
        None => None,
        Some(line) => {
            let parts = split_at_char(line, '"');
            if parts.len() > 3 && parts[3].len() > 0 {
                Some(parts[3])
            } else {
                None
            }
        },
    }
}

/// The last run of characters that are not white space.
pub open spec fn last_word(s: Seq<char>) -> Option<Seq<char>> {
    let t = drop_trailing(s, is_white());
    if t.len() == 0 {
        None
    } else {
        Some(t.skip(drop_trailing(t, is_black()).len() as int))
    }
}

/// The property of not being white space.
pub open spec fn is_black() -> spec_fn(char) -> bool {
    |x: char| !white_space(x)
}

/// The name in a listing of `reg query`: the last word of the first line that tells
/// of `MachineGuid`.
pub open spec fn registry_name(text: Seq<char>) -> Option<Seq<char>> {
    match line_with(split_at_char(text, '\n'), "MachineGuid"@, 0) {
        None => None,
        Some(line) => last_word(line),
    }
}

/// Reads the machine's name in what `ioreg` printed.
pub fn name_in_ioreg(stdout: &[u8]) -> (r: Option<String>)
    ensures
        option_string(r) == ioreg_name(utf8_lossy(stdout@)),
{
    let text: String = lossy_text(stdout);
    name_in_ioreg_text(text.as_str())
}

/// Reads the machine's name in the text that `ioreg` printed.
pub fn name_in_ioreg_text(text: &str) -> (r: Option<String>)
    ensures
        option_string(r) == ioreg_name(text@),
{
    let chars: Vec<char> = chars_of(text);
    let needle: Vec<char> = chars_of("IOPlatformUUID");
    proof {
        reveal_strlit("IOPlatformUUID");
    }
    match find_line(chars.as_slice(), needle.as_slice()) {
        None => None,
        Some(line) => {
            let parts: Vec<Vec<char>> = split_on(line.as_slice(), '"');
            assert(texts(parts@).len() == parts@.len());
            if parts.len() > 3 {
                assert(texts(parts@)[3] == parts@[3]@);
                if parts[3].len() > 0 {
                    return Some(text_of(parts[3].as_slice()));
                }
            }
            None
        },
    }
}

/// Reads the machine's name in what `reg query` printed.
pub fn name_in_registry(stdout: &[u8]) -> (r: Option<String>)
    ensures
        option_string(r) == registry_name(utf8_lossy(stdout@)),
{
    let text: String = lossy_text(stdout);
    name_in_registry_text(text.as_str())
}

/// Reads the machine's name in the text that `reg query` printed.
pub fn name_in_registry_text(text: &str) -> (r: Option<String>)
    ensures
        option_string(r) == registry_name(text@),
{
    let chars: Vec<char> = chars_of(text);
    let needle: Vec<char> = chars_of("MachineGuid");
    proof {
        reveal_strlit("MachineGuid");
    }
    match find_line(chars.as_slice(), needle.as_slice()) {
        None => None,
        Some(line) => find_last_word(line.as_slice()),
    }
}

/// The last run of characters that are not white space.
fn find_last_word(s: &[char]) -> (r: Option<String>)
    ensures
        option_string(r) == last_word(s@),
{
    let mut end: usize = s.len();
    assert(s@.take(end as int) =~= s@);
    while end > 0 && s[end - 1].is_whitespace()
        invariant
            end <= s@.len(),
            drop_trailing(s@, is_white()) == drop_trailing(s@.take(end as int), is_white()),
        decreases end,
    {
        assert(s@.take(end as int).drop_last() =~= s@.take(end - 1));
        end = end - 1;
    }
    let t: &[char] = slice_subrange(s, 0, end);
    assert(t@ =~= s@.take(end as int));
    if t.len() == 0 {
        return None;
    }
    let mut start: usize = t.len();
    assert(t@.take(start as int) =~= t@);
    while start > 0 && !t[start - 1].is_whitespace()
        invariant
            start <= t@.len(),
            drop_trailing(t@, is_black()) == drop_trailing(t@.take(start as int), is_black()),
        decreases start,
    {
        assert(t@.take(start as int).drop_last() =~= t@.take(start - 1));
        start = start - 1;
    }
    let word: &[char] = slice_subrange(t, start, t.len());
    assert(word@ =~= t@.skip(start as int));
    Some(text_of(word))
}

/// The stable name of a machine: the one that its system keeps, or else its host
/// name, or else a fixed one.
pub open spec fn machine_name(kept: Option<Seq<char>>, hostname: Option<Seq<char>>) -> Seq<char> {
    match (kept, hostname) {
        (Some(k), _) => k,
        (None, Some(h)) => h,
        (None, None) => UNKNOWN_MACHINE@,
    }
}

/// The stable name of a machine.
pub fn machine_id(kept: Option<String>, hostname: Option<String>) -> (r: String)
    ensures
        r@ == machine_name(option_string(kept), option_string(hostname)),
{
    match (kept, hostname) {
        (Some(k), _) => k,
        (None, Some(h)) => h,
        (None, None) => UNKNOWN_MACHINE.to_owned(),
    }
}

/// What is known of the machine that the node runs on.
#[derive(Debug, Clone, PartialEq, Eq)]
pub struct MachineFingerprint {
    /// The machine's stable name.
    pub machine_id: String,
    /// The host name, for display only: it is no part of the digest.
    pub hostname: String,
    /// The digest of the stable name.
    pub digest: [u8; 32],
}

/// What is digested for a machine: its name, a zero byte, a version tag.
pub open spec fn fingerprint_material(machine_id: Seq<char>) -> Seq<u8> {
    encode_utf8(machine_id) + seq![0u8] + encode_utf8("void-connect-fp-v2"@)
}

impl MachineFingerprint {
    /// The fingerprint of a machine with the given names; a host name that cannot be
    /// read is shown as `unknown-host`.
    pub fn collect(machine_id: String, hostname: Option<String>) -> (r: MachineFingerprint)
        ensures
            r.machine_id@ == machine_id@,
            r.hostname@ == (match hostname {
                Some(h) => h@,
                None => "unknown-host"@,
            }),
            r.digest@ == sha256_of(fingerprint_material(machine_id@)),
    {
        let digest: [u8; 32] = MachineFingerprint::compute_digest(machine_id.as_str());
        let hostname: String = match hostname {
            Some(h) => h,
            None => "unknown-host".to_owned(),
        };
        MachineFingerprint { machine_id, hostname, digest }
    }

    /// The digest of a machine's stable name.
    pub fn compute_digest(machine_id: &str) -> (r: [u8; 32])
        ensures
            r@ == sha256_of(fingerprint_material(machine_id@)),
    {
        let mut material: Vec<u8> = bytes_of(machine_id.as_bytes());
        material.push(0);
        append_bytes(&mut material, "void-connect-fp-v2".as_bytes());
        assert(material@ =~= fingerprint_material(machine_id@));
        sha256(material.as_slice())
    }

    /// The digest in hexadecimal.
    pub fn to_hex(&self) -> (r: String)
        ensures
            r@ == hex_text(self.digest@),
    {
        encode(&self.digest)
    }

    /// A short description: the first twelve characters of the stable name, and the
    /// host name.
    pub fn summary(&self) -> (r: String)
        ensures
            r@ == "machine-id: "@ + (if self.machine_id@.len() > 12 {
                self.machine_id@.take(12)
            } else {
                self.machine_id@
            }) + "… | hostname: "@ + self.hostname@,
    {
        let mut out: String = "machine-id: ".to_owned();
        let name: Vec<char> = chars_of(self.machine_id.as_str());
        let shown: usize = if name.len() > 12 {
            12
        } else {
            name.len()
        };
        let short: String = text_of(slice_subrange(name.as_slice(), 0, shown));
        assert(self.machine_id@.take(self.machine_id@.len() as int) =~= self.machine_id@);
        out.append(short.as_str());
        out.append("… | hostname: ");
        out.append(self.hostname.as_str());
        out
    }
}

/// Machines with different names are digested from different bytes.
pub proof fn law_fingerprint_material_tells_apart(a: Seq<char>, b: Seq<char>)
    requires
        fingerprint_material(a) == fingerprint_material(b),
    ensures
        a == b,
{
    let x = encode_utf8(a);
    let y = encode_utf8(b);
    let tag = encode_utf8("void-connect-fp-v2"@);
    assert(fingerprint_material(a).len() == x.len() + 1 + tag.len());
    assert(fingerprint_material(b).len() == y.len() + 1 + tag.len());
    assert(x =~= fingerprint_material(a).take(x.len() as int));
    assert(y =~= fingerprint_material(b).take(y.len() as int));
    encode_utf8_decode_utf8(a);
    encode_utf8_decode_utf8(b);
}

/// The name in files is that of the first file which holds more than white space, without
/// white space round it.
pub proof fn law_first_filled_file_counts(found: Seq<Option<Seq<char>>>, i: int)
    requires
        0 <= i < found.len(),
        found[i] matches Some(s) && trim_text(s).len() > 0,
        forall|j: int|
            0 <= j < i ==> !((#[trigger] found[j]) matches Some(s) && trim_text(s).len() > 0),
    ensures
        first_filled(found) == Some(trim_text(found[i]->0)),
    decreases found.len(),
{
    if i > 0 {
        let rest = found.drop_first();
        assert(!(found[0] matches Some(s) && trim_text(s).len() > 0));
        assert forall|j: int| 0 <= j < i - 1 implies !((#[trigger] rest[j]) matches Some(s)
            && trim_text(s).len() > 0) by {
            assert(rest[j] == found[j + 1]);
        }
        law_first_filled_file_counts(rest, i - 1);
    }
}

/// No file tells a name just where each is missing or holds white space only.
pub proof fn law_blank_files_tell_no_name(found: Seq<Option<Seq<char>>>)
    ensures
        first_filled(found) is None <==> forall|i: int|
            0 <= i < found.len() ==> !((#[trigger] found[i]) matches Some(s) && trim_text(s).len()
                > 0),
    decreases found.len(),
{
    if found.len() > 0 {
        let rest = found.drop_first();
        law_blank_files_tell_no_name(rest);
        if first_filled(found) is None {
            assert forall|i: int| 0 <= i < found.len() implies !((#[trigger] found[i]) matches Some(
                s,
            ) && trim_text(s).len() > 0) by {
                if i > 0 {
                    assert(rest[i - 1] == found[i]);
                }
            }
        }
        if forall|i: int|
            0 <= i < found.len() ==> !((#[trigger] found[i]) matches Some(s) && trim_text(s).len()
                > 0) {
            assert(!(found[0] matches Some(s) && trim_text(s).len() > 0));
            assert forall|i: int| 0 <= i < rest.len() implies !((#[trigger] rest[i]) matches Some(s)
                && trim_text(s).len() > 0) by {
                assert(rest[i] == found[i + 1]);
            }
        }
    }
}

/// The line that is found is the first one in which the text occurs, and none is found just
/// where it occurs in none.
pub proof fn law_first_line_counts(pieces: Seq<Seq<char>>, needle: Seq<char>, from: int, i: int)
    requires
        0 <= from <= i <= pieces.len(),
        i < pieces.len() ==> occurs_in(needle, line_at(pieces, i)),
        forall|j: int| from <= j < i ==> !occurs_in(needle, #[trigger] line_at(pieces, j)),
    ensures
        i < pieces.len() ==> line_with(pieces, needle, from) == Some(line_at(pieces, i)),
        i == pieces.len() ==> line_with(pieces, needle, from) is None,
    decreases i - from,
{
    if from < i {
        assert(!occurs_in(needle, line_at(pieces, from)));
        law_first_line_counts(pieces, needle, from + 1, i);
    }
}

/// A line is what stands before its line feed, less one carriage return before that; the last
/// line, which has no line feed, is all that is left.
pub proof fn law_lines_end_at_line_feeds(pieces: Seq<Seq<char>>, i: int, text: Seq<char>)
    requires
        0 <= i < pieces.len(),
    ensures
        i == pieces.len() - 1 ==> line_at(pieces, i) == pieces[i],
        i < pieces.len() - 1 && pieces[i] == text.push('\r') ==> line_at(pieces, i) == text,
        i < pieces.len() - 1 && (pieces[i].len() == 0 || pieces[i].last() != '\r') ==> line_at(
            pieces,
            i,
        ) == pieces[i],
{
    assert(text.push('\r').drop_last() =~= text);
}

/// The last word of a line is what stands between its last white space and its end, white
/// space at the end aside.
pub proof fn law_last_word_is_found(front: Seq<char>, word: Seq<char>, end: Seq<char>)
    requires
        word.len() > 0,
        forall|i: int| 0 <= i < word.len() ==> !white_space(#[trigger] word[i]),
        forall|i: int| 0 <= i < end.len() ==> white_space(#[trigger] end[i]),
        front.len() > 0 ==> white_space(front.last()),
    ensures
        last_word(front + word + end) == Some(word),
        last_word(end) is None,
{
    let s = front + word + end;
    let w = is_white();
    let b = is_black();
    law_end_is_dropped(s, w);
    let t = drop_trailing(s, w);
    let n: int = (front.len() + word.len()) as int;
    assert(s[n - 1] == word[word.len() - 1]);
    assert forall|i: int| n <= i < s.len() implies w(#[trigger] s[i]) by {
        assert(s[i] == end[i - n]);
    }
    assert(t.len() == n);
    assert(t =~= front + word);
    law_end_is_dropped(t, b);
    let f: int = front.len() as int;
    assert forall|i: int| f <= i < t.len() implies b(#[trigger] t[i]) by {
        assert(t[i] == word[i - f]);
    }
    if f > 0 {
        assert(t[f - 1] == front.last());
    }
    assert(drop_trailing(t, b).len() == f);
    assert(t.skip(f) =~= word);
    law_end_is_dropped(end, w);
    if drop_trailing(end, w).len() > 0 {
        let k: int = drop_trailing(end, w).len() - 1;
        assert(w(end[k]));
    }
}

/// The name in a listing of `ioreg` stands between the third and the fourth quotation mark of
/// the line, wherever it is not empty; that in a listing of `reg query` is the last word of
/// the line.
pub proof fn law_names_in_listings(text: Seq<char>)
    ensures
        line_with(split_at_char(text, '\n'), "IOPlatformUUID"@, 0) is None ==> ioreg_name(
            text,
        ) is None,
        line_with(split_at_char(text, '\n'), "IOPlatformUUID"@, 0) matches Some(line) ==> {
            let parts = split_at_char(line, '"');
            &&& parts.len() >= 4 && parts[3].len() > 0 ==> ioreg_name(text) == Some(parts[3])
            &&& parts.len() < 4 || parts[3].len() == 0 ==> ioreg_name(text) is None
        },
        line_with(split_at_char(text, '\n'), "MachineGuid"@, 0) is None ==> registry_name(
            text,
        ) is None,
        line_with(split_at_char(text, '\n'), "MachineGuid"@, 0) matches Some(line)
            ==> registry_name(text) == last_word(line),
{
}

/// A machine goes by the name that its system keeps, else by its host name, else by a fixed
/// one.
pub proof fn law_machine_has_a_name(kept: Option<Seq<char>>, hostname: Option<Seq<char>>)
    ensures
        kept matches Some(k) ==> machine_name(kept, hostname) == k,
        kept is None ==> (hostname matches Some(h) ==> machine_name(kept, hostname) == h),
        kept is None && hostname is None ==> machine_name(kept, hostname) == "unknown-machine"@,
        forall|m: Seq<char>| #[trigger]
            fingerprint_material(m) == encode_utf8(m) + seq![0u8] + encode_utf8(
                "void-connect-fp-v2"@,
            ),
{
}

/// The contents of files stand in their order, and a file that is missing has none.
pub proof fn law_contents_of_files(found: Seq<Option<String>>, i: int)
    requires
        0 <= i < found.len(),
    ensures
        file_texts(found).len() == found.len(),
        found[i] matches Some(s) ==> file_texts(found)[i] == Some(s@),
        found[i] is None ==> file_texts(found)[i] is None,
{
}

} // verus!
