//! Names in the internal zone, and who owns them.

use vstd::prelude::*;

use crate::node::identity::NodeId;
use crate::util::text::{
    chars_of, drop_leading, drop_suffixes, drop_trailing, is_char, is_text_before, is_white,
    law_end_is_dropped, law_front_is_dropped,
    lemma_drop_leading, lemma_drop_trailing, lemma_nothing_to_drop, lemma_text_before_irreflexive,
    lemma_text_before_total, lemma_text_before_transitive, lower, lower_char, option_string,
    strip_suffixes, text_before, text_of, trim_char, trim_matching, trim_text, trim_white,
};

verus! {

/// The internal zone.
pub const ZONE: &'static str = ".void";

/// What a name stands for.
#[derive(Debug, Clone, Copy, PartialEq, Eq, Structural)]
pub enum DnsKind {
    /// A node.
    Node,
    /// A site.
    Site,
}

/// A record of a name.
#[derive(Debug, Clone, PartialEq, Eq)]
pub struct DnsRecord {
    /// The name without its zone.
    pub name: String,
    pub kind: DnsKind,
    /// The owner, who has to be the signer of the record.
    pub node_id: NodeId,
    /// The node's address, if it is known.
    pub ip: Option<String>,
    /// The port of the service, if there is one.
    pub port: Option<u16>,
    /// When the name was registered, in seconds of Unix time.
    pub created_at: i64,
    /// Whether the owner has given the name up. It stays the owner's, but leads
    /// nowhere.
    pub deleted: bool,
}

impl DnsRecord {
    /// Whether this record goes before another one of the same name: it was registered
    /// earlier, or at the same time by the node whose name comes first.
    pub open spec fn beats(&self, other: &DnsRecord) -> bool {
        ||| self.created_at < other.created_at
        ||| self.created_at == other.created_at && text_before(self.node_id@, other.node_id@)
    }

    /// The name with its zone.
    pub fn dns_name(&self) -> (r: String)
        ensures
            r@ == self.name@ + ZONE@,
    {
        let mut out: String = self.name.clone();
        out.append(ZONE);
        out
    }

    /// Whether this record goes before another one of the same name.
    pub fn wins_over(&self, other: &DnsRecord) -> (r: bool)
        ensures
            r == self.beats(other),
    {
        if self.created_at < other.created_at {
            true
        } else if self.created_at > other.created_at {
            false
        } else {
            is_text_before(self.node_id.as_str(), other.node_id.as_str())
        }
    }
}

/// No record goes before itself, and of two records at most one goes before the other.
pub proof fn law_wins_over_asymmetric(a: DnsRecord, b: DnsRecord)
    ensures
        !a.beats(&a),
        !(a.beats(&b) && b.beats(&a)),
{
    lemma_text_before_irreflexive(a.node_id@);
    if a.created_at == b.created_at && a.beats(&b) && b.beats(&a) {
        lemma_text_before_transitive(a.node_id@, b.node_id@, a.node_id@);
    }
}

/// Of two records by different nodes, or from different times, one goes before the
/// other.
pub proof fn law_wins_over_total(a: DnsRecord, b: DnsRecord)
    requires
        a.created_at != b.created_at || a.node_id@ != b.node_id@,
    ensures
        a.beats(&b) || b.beats(&a),
{
    if a.created_at == b.created_at {
        lemma_text_before_total(a.node_id@, b.node_id@);
    }
}

/// A record that goes before one that goes before a third goes before the third.
pub proof fn law_wins_over_transitive(a: DnsRecord, b: DnsRecord, c: DnsRecord)
    requires
        a.beats(&b),
        b.beats(&c),
    ensures
        a.beats(&c),
{
    if a.created_at == b.created_at && b.created_at == c.created_at {
        lemma_text_before_transitive(a.node_id@, b.node_id@, c.node_id@);
    }
}

/// Whether the character is a lower-case ASCII letter or a digit.
pub open spec fn is_label_char(c: char) -> bool {
    ('a' <= c && c <= 'z') || ('0' <= c && c <= '9')
}

/// What becomes of a character in a name: a letter or digit stays, in lower case; a
/// dash, an underscore or a space becomes a dash; anything else goes.
pub open spec fn mapped(c: char) -> Option<char> {
    if is_label_char(lower(c)) {
        Some(lower(c))
    } else if c == '-' || c == '_' || c == ' ' {
        Some('-')
    } else {
        None
    }
}

/// What becomes of the characters of a name.
pub open spec fn kept(s: Seq<char>) -> Seq<char>
    decreases s.len(),
{
    if s.len() == 0 {
        seq![]
    } else {
        match mapped(s.last()) {
            Some(c) => kept(s.drop_last()).push(c),
            None => kept(s.drop_last()),
        }
    }
}

/// A text in which each run of dashes has become one dash.
pub open spec fn single_dashes(s: Seq<char>) -> Seq<char>
    decreases s.len(),
{
    if s.len() == 0 {
        seq![]
    } else {
        let before = single_dashes(s.drop_last());
        if s.last() == '-' && before.len() > 0 && before.last() == '-' {
            before
        } else {
            before.push(s.last())
        }
    }
}

/// What is left of a text as a name: white space round it and its zone go, its
/// characters are mapped, runs of dashes become one, dashes at the ends go.
pub open spec fn label_text(input: Seq<char>) -> Seq<char> {
    trim_char(single_dashes(kept(drop_suffixes(trim_text(input), ZONE@))), '-')
}

/// A text as a name in the zone, unless nothing is left of it.
pub open spec fn label(input: Seq<char>) -> Option<Seq<char>> {
    if label_text(input).len() == 0 {
        None
    } else {
        Some(label_text(input))
    }
}

/// Makes a name in the zone of any text, if something is left of it.
pub fn normalize_name(input: &str) -> (r: Option<String>)
    ensures
        option_string(r) == label(input@),
        r is Some <==> exists|i: int|
            0 <= i < drop_suffixes(trim_text(input@), ".void"@).len() && letter_or_digit()(
                #[trigger] drop_suffixes(trim_text(input@), ".void"@)[i],
            ),
        r matches Some(s) ==> well_formed_label(s@),
{
    let chars: Vec<char> = chars_of(input);
    let zone: Vec<char> = chars_of(ZONE);
    proof {
        reveal_strlit(".void");
        law_refused_just_where_nothing_is_left(input@);
        if label(input@) is Some {
            law_normalized_is_well_formed(input@);
        }
    }
    let base: &[char] = strip_suffixes(trim_white(chars.as_slice()), zone.as_slice());
    let mut out: Vec<char> = Vec::new();
    let mut prev_dash: bool = false;
    let mut i: usize = 0;
    while i < base.len()
        invariant
            i <= base@.len(),
            out@ == single_dashes(kept(base@.take(i as int))),
            prev_dash == (out@.len() > 0 && out@.last() == '-'),
        decreases base@.len() - i,
    {
        assert(base@.take(i + 1).drop_last() =~= base@.take(i as int));
        let ghost k0 = kept(base@.take(i as int));
        let c: char = lower_char(base[i]);
        if ('a' <= c && c <= 'z') || ('0' <= c && c <= '9') {
            prev_dash = false;
            assert(k0.push(c).drop_last() =~= k0);
            out.push(c);
        } else if c == '-' || c == '_' || c == ' ' {
            assert(k0.push('-').drop_last() =~= k0);
            if !prev_dash {
                prev_dash = true;
                out.push('-');
            }
        }
        i = i + 1;
    }
    assert(base@.take(i as int) =~= base@);
    let trimmed: &[char] = trim_matching(out.as_slice(), '-');
    if trimmed.len() == 0 {
        None
    } else {
        Some(text_of(trimmed))
    }
}

/// Whether a text is a name as the zone has them: letters and digits with single
/// dashes between them.
pub open spec fn well_formed_label(s: Seq<char>) -> bool {
    &&& s.len() > 0
    &&& forall|i: int| 0 <= i < s.len() ==> is_label_char(#[trigger] s[i]) || s[i] == '-'
    &&& s[0] != '-'
    &&& s.last() != '-'
    &&& forall|i: int, j: int|
        0 <= i && j == i + 1 && j < s.len() ==> #[trigger] s[i] != '-' || #[trigger] s[j] != '-'
}

/// Mapped characters are those of names.
proof fn lemma_kept(s: Seq<char>)
    ensures
        forall|i: int|
            0 <= i < kept(s).len() ==> is_label_char(#[trigger] kept(s)[i]) || kept(s)[i] == '-',
    decreases s.len(),
{
    if s.len() > 0 {
        let before = kept(s.drop_last());
        lemma_kept(s.drop_last());
        assert forall|i: int| 0 <= i < kept(s).len() implies is_label_char(#[trigger] kept(s)[i])
            || kept(s)[i] == '-' by {
            if i < before.len() {
                assert(kept(s)[i] == before[i]);
            }
        }
    }
}

/// Single dashes have no dash beside them.
proof fn lemma_single_dashes(s: Seq<char>)
    requires
        forall|i: int| 0 <= i < s.len() ==> is_label_char(#[trigger] s[i]) || s[i] == '-',
    ensures
        forall|i: int|
            0 <= i < single_dashes(s).len() ==> is_label_char(#[trigger] single_dashes(s)[i])
                || single_dashes(s)[i] == '-',
        forall|i: int, j: int|
            0 <= i && j == i + 1 && j < single_dashes(s).len() ==> #[trigger] single_dashes(s)[i]
                != '-' || #[trigger] single_dashes(s)[j] != '-',
    decreases s.len(),
{
    if s.len() > 0 {
        let t = s.drop_last();
        assert forall|i: int| 0 <= i < t.len() implies is_label_char(#[trigger] t[i]) || t[i]
            == '-' by {
            assert(t[i] == s[i]);
        }
        lemma_single_dashes(t);
        let before = single_dashes(t);
        let d = single_dashes(s);
        assert(s.last() == s[s.len() - 1]);
        assert forall|i: int| 0 <= i < d.len() implies is_label_char(#[trigger] d[i]) || d[i]
            == '-' by {
            if i < before.len() {
                assert(d[i] == before[i]);
            }
        }
        assert forall|i: int, j: int| 0 <= i && j == i + 1 && j < d.len() implies #[trigger] d[i]
            != '-' || #[trigger] d[j] != '-' by {
            assert(d[i] == before[i]);
            if j < before.len() {
                assert(d[j] == before[j]);
            }
        }
    }
}

/// What `normalize_name` gives is a name as the zone has them.
pub proof fn law_normalized_is_well_formed(input: Seq<char>)
    requires
        label(input) is Some,
    ensures
        well_formed_label(label_text(input)),
{
    let k = kept(drop_suffixes(trim_text(input), ZONE@));
    let d = single_dashes(k);
    let p = is_char('-');
    lemma_kept(drop_suffixes(trim_text(input), ZONE@));
    lemma_single_dashes(k);
    let l = drop_leading(d, p);
    let r = drop_trailing(l, p);
    lemma_drop_leading(d, p);
    lemma_drop_trailing(l, p);
    let off: int = d.len() - l.len();
    assert(l =~= d.subrange(off, d.len() as int));
    assert(r =~= l.subrange(0, r.len() as int));
    assert forall|i: int| 0 <= i < r.len() implies #[trigger] r[i] == d[off + i] by {
        assert(l[i] == d[off + i]);
    }
    assert(r[0] == l[0]);
    assert forall|i: int, j: int| 0 <= i && j == i + 1 && j < r.len() implies #[trigger] r[i] != '-'
        || #[trigger] r[j] != '-' by {
        assert(r[i] == d[off + i]);
        assert(r[j] == d[off + j]);
    }
}

/// A name as the zone has them stays as it is.
proof fn lemma_well_formed_kept(s: Seq<char>)
    requires
        forall|i: int| 0 <= i < s.len() ==> is_label_char(#[trigger] s[i]) || s[i] == '-',
    ensures
        kept(s) == s,
    decreases s.len(),
{
    if s.len() > 0 {
        assert forall|i: int| 0 <= i < s.drop_last().len() implies is_label_char(
            #[trigger] s.drop_last()[i],
        ) || s.drop_last()[i] == '-' by {
            assert(s.drop_last()[i] == s[i]);
        }
        lemma_well_formed_kept(s.drop_last());
        assert(s.last() == s[s.len() - 1]);
        assert(kept(s) =~= s);
    }
}

/// A text without neighbouring dashes has nothing to collapse.
proof fn lemma_already_single(s: Seq<char>)
    requires
        forall|i: int, j: int|
            0 <= i && j == i + 1 && j < s.len() ==> #[trigger] s[i] != '-' || #[trigger] s[j] != '-',
    ensures
        single_dashes(s) == s,
    decreases s.len(),
{
    if s.len() > 0 {
        let t = s.drop_last();
        assert forall|i: int, j: int| 0 <= i && j == i + 1 && j < t.len() implies #[trigger] t[i]
            != '-' || #[trigger] t[j] != '-' by {
            assert(t[i] == s[i] && t[j] == s[j]);
        }
        lemma_already_single(t);
        if t.len() > 0 {
            assert(t.last() == s[s.len() - 2]);
            assert(s.last() == s[s.len() - 1]);
        }
        assert(single_dashes(s) =~= s);
    }
}

/// Making a name of a name changes nothing.
pub proof fn law_normalize_is_idempotent(input: Seq<char>)
    requires
        label(input) is Some,
    ensures
        label(label_text(input)) == label(input),
{
    let s = label_text(input);
    law_normalized_is_well_formed(input);
    assert(is_label_char(s[0]) && is_label_char(s.last())) by {
        assert(s.last() == s[s.len() - 1]);
    }
    lemma_nothing_to_drop(s, is_white());
    assert(trim_text(s) == s);
    assert(drop_suffixes(s, ZONE@) == s) by {
        reveal_strlit(".void");
        if ZONE@.is_suffix_of(s) {
            assert(s[s.len() - 5] == ZONE@[0]);
        }
    }
    lemma_well_formed_kept(s);
    lemma_already_single(s);
    lemma_nothing_to_drop(s, is_char('-'));
}

/// A name with its zone put back is the same name.
pub proof fn law_zone_changes_no_name(input: Seq<char>)
    requires
        label(input) is Some,
    ensures
        label(label_text(input) + ZONE@) == label(input),
{
    let s = label_text(input);
    let t = s + ZONE@;
    law_normalized_is_well_formed(input);
    law_normalize_is_idempotent(input);
    reveal_strlit(".void");
    assert(is_label_char(s[0]) && is_label_char(s.last())) by {
        assert(s.last() == s[s.len() - 1]);
    }
    assert(t[0] == s[0]);
    assert(t.last() == ZONE@[4]);
    lemma_nothing_to_drop(t, is_white());
    lemma_nothing_to_drop(s, is_white());
    assert(t.subrange(t.len() - 5, t.len() as int) =~= ZONE@);
    assert(ZONE@.is_suffix_of(t));
    assert(t.subrange(0, t.len() - 5) =~= s);
    assert(drop_suffixes(t, ZONE@) == drop_suffixes(s, ZONE@));
}

/// Of two records of one name the earlier goes before the later, whoever has registered
/// them. Of two from the same time that of the node whose name comes first goes before the
/// other. Nothing else of a record counts.
pub proof fn law_earlier_record_wins(a: DnsRecord, b: DnsRecord)
    ensures
        a.created_at < b.created_at ==> a.beats(&b) && !b.beats(&a),
        a.created_at == b.created_at ==> (a.beats(&b) <==> text_before(a.node_id@, b.node_id@)),
{
}

/// Letters and digits stay, in lower case; a dash, an underscore and a space become a dash;
/// every other character goes. That holds of each character wherever it stands.
pub proof fn law_characters_of_names(s: Seq<char>, c: char)
    ensures
        kept(seq![]) == Seq::<char>::empty(),
        'a' <= c && c <= 'z' ==> kept(s.push(c)) == kept(s).push(c),
        '0' <= c && c <= '9' ==> kept(s.push(c)) == kept(s).push(c),
        'A' <= c && c <= 'Z' ==> kept(s.push(c)) == kept(s).push((c as u32 + 32) as char),
        c == '-' || c == '_' || c == ' ' ==> kept(s.push(c)) == kept(s).push('-'),
        !('a' <= c && c <= 'z') && !('0' <= c && c <= '9') && !('A' <= c && c <= 'Z') && c != '-'
            && c != '_' && c != ' ' ==> kept(s.push(c)) == kept(s),
{
    assert(s.push(c).drop_last() =~= s);
}

/// A dash that follows a dash goes; every other character stays.
pub proof fn law_runs_of_dashes_become_one(s: Seq<char>, c: char)
    ensures
        single_dashes(seq![]) == Seq::<char>::empty(),
        s.len() > 0 && s.last() == '-' && c == '-' ==> single_dashes(s.push(c)) == single_dashes(s),
        s.len() == 0 || s.last() != '-' || c != '-' ==> single_dashes(s.push(c))
            == single_dashes(s).push(c),
{
    assert(s.push(c).drop_last() =~= s);
    lemma_same_last(s);
}

/// A run of dashes ends as the text does.
proof fn lemma_same_last(s: Seq<char>)
    ensures
        s.len() > 0 ==> single_dashes(s).len() > 0 && single_dashes(s).last() == s.last(),
        s.len() == 0 ==> single_dashes(s).len() == 0,
{
}

/// A letter or a digit of ASCII.
pub open spec fn letter_or_digit() -> spec_fn(char) -> bool {
    |c: char| ('a' <= c && c <= 'z') || ('A' <= c && c <= 'Z') || ('0' <= c && c <= '9')
}

/// Any character but a dash.
pub open spec fn no_dash() -> spec_fn(char) -> bool {
    |c: char| c != '-'
}

/// The characters but dashes of what is kept are the letters and digits in lower case.
proof fn lemma_kept_letters(s: Seq<char>)
    ensures
        kept(s).filter(no_dash()) == s.filter(letter_or_digit()).map_values(|c: char| lower(c)),
    decreases s.len(),
{
    reveal(Seq::filter);
    if s.len() > 0 {
        let t = s.drop_last();
        lemma_kept_letters(t);
        let f = |c: char| lower(c);
        match mapped(s.last()) {
            Some(c) => {
                assert(kept(s).drop_last() =~= kept(t));
                assert(kept(s).last() == c);
            },
            None => {},
        }
        if letter_or_digit()(s.last()) {
            assert(s.filter(letter_or_digit()).map_values(f) =~= t.filter(
                letter_or_digit(),
            ).map_values(f).push(lower(s.last())));
        }
    } else {
        assert(kept(s).filter(no_dash()) =~= s.filter(letter_or_digit()).map_values(
            |c: char| lower(c),
        ));
    }
}

/// Making runs of dashes one takes away dashes only.
proof fn lemma_single_letters(s: Seq<char>)
    ensures
        single_dashes(s).filter(no_dash()) == s.filter(no_dash()),
    decreases s.len(),
{
    reveal(Seq::filter);
    if s.len() > 0 {
        lemma_single_letters(s.drop_last());
        let before = single_dashes(s.drop_last());
        assert(before.push(s.last()).drop_last() =~= before);
    }
}

/// A text of dashes has no other character.
proof fn lemma_only_dashes(s: Seq<char>)
    requires
        forall|i: int| 0 <= i < s.len() ==> #[trigger] s[i] == '-',
    ensures
        s.filter(no_dash()) == Seq::<char>::empty(),
    decreases s.len(),
{
    reveal(Seq::filter);
    if s.len() > 0 {
        let t = s.drop_last();
        assert forall|i: int| 0 <= i < t.len() implies #[trigger] t[i] == '-' by {
            assert(t[i] == s[i]);
        }
        lemma_only_dashes(t);
        assert(s.last() == s[s.len() - 1]);
    }
}

/// Trimming dashes takes away dashes only.
proof fn lemma_trimmed_letters(s: Seq<char>)
    ensures
        trim_char(s, '-').filter(no_dash()) == s.filter(no_dash()),
{
    let p = is_char('-');
    let l = drop_leading(s, p);
    let r = drop_trailing(l, p);
    law_front_is_dropped(s, p);
    law_end_is_dropped(l, p);
    let n: int = s.len() - l.len();
    let front = s.take(n);
    let end = l.skip(r.len() as int);
    assert(s =~= front + r + end);
    assert forall|i: int| 0 <= i < front.len() implies #[trigger] front[i] == '-' by {
        assert(p(s[i]));
    }
    assert forall|i: int| 0 <= i < end.len() implies #[trigger] end[i] == '-' by {
        assert(p(l[i + r.len()]));
    }
    lemma_only_dashes(front);
    lemma_only_dashes(end);
    Seq::filter_distributes_over_add(front, r, no_dash());
    Seq::filter_distributes_over_add(front + r, end, no_dash());
    assert(s.filter(no_dash()) =~= r.filter(no_dash()));
}

/// Nothing is left of a text by a property just where no character has it.
proof fn lemma_filter_empty(s: Seq<char>, p: spec_fn(char) -> bool)
    ensures
        s.filter(p).len() == 0 <==> forall|i: int| 0 <= i < s.len() ==> !p(#[trigger] s[i]),
    decreases s.len(),
{
    reveal(Seq::filter);
    if s.len() > 0 {
        let t = s.drop_last();
        lemma_filter_empty(t, p);
        assert(s.last() == s[s.len() - 1]);
        if s.filter(p).len() == 0 {
            assert forall|i: int| 0 <= i < s.len() implies !p(#[trigger] s[i]) by {
                if i < t.len() {
                    assert(t[i] == s[i]);
                }
            }
        }
        if forall|i: int| 0 <= i < s.len() ==> !p(#[trigger] s[i]) {
            assert forall|i: int| 0 <= i < t.len() implies !p(#[trigger] t[i]) by {
                assert(t[i] == s[i]);
            }
        }
    }
}

/// No letter and no digit of a text is lost in its name, however long it is: dashes aside,
/// the name has the letters and digits of the text without its zone, in lower case, all of
/// them, and in their order.
pub proof fn law_letters_and_digits_stay(input: Seq<char>)
    ensures
        label_text(input).filter(no_dash()) == drop_suffixes(trim_text(input), ".void"@).filter(
            letter_or_digit(),
        ).map_values(|c: char| lower(c)),
{
    let base = drop_suffixes(trim_text(input), ZONE@);
    lemma_kept_letters(base);
    lemma_single_letters(kept(base));
    lemma_trimmed_letters(single_dashes(kept(base)));
}

/// A text is refused as a name just where nothing is left of it: it makes a name wherever
/// it holds a letter or a digit of ASCII, white space round it and its zone aside, however
/// long it is.
pub proof fn law_refused_just_where_nothing_is_left(input: Seq<char>)
    ensures
        label(input) is Some <==> exists|i: int|
            0 <= i < drop_suffixes(trim_text(input), ".void"@).len() && ({
                let c = #[trigger] drop_suffixes(trim_text(input), ".void"@)[i];
                ('a' <= c && c <= 'z') || ('A' <= c && c <= 'Z') || ('0' <= c && c <= '9')
            }),
        label(input) is Some ==> label(input) == Some(label_text(input)),
{
    let base = drop_suffixes(trim_text(input), ".void"@);
    let r = label_text(input);
    let p = letter_or_digit();
    law_letters_and_digits_stay(input);
    lemma_filter_empty(base, p);
    lemma_filter_empty(r, no_dash());
    assert(r.filter(no_dash()).len() == base.filter(p).len());
    if label(input) is Some {
        law_normalized_is_well_formed(input);
        assert(no_dash()(r[0]));
        let i: int = choose|i: int| 0 <= i < base.len() && p(#[trigger] base[i]);
        assert(p(base[i]));
    } else {
        assert(r.len() == 0);
        assert forall|i: int| 0 <= i < base.len() implies !p(#[trigger] base[i]) by {}
    }
}

/// Words with any separators between them become one name with a dash between them.
pub proof fn law_words_are_joined_by_a_dash(a: Seq<char>, between: Seq<char>, b: Seq<char>)
    requires
        a.len() > 0,
        b.len() > 0,
        between.len() > 0,
        forall|i: int| 0 <= i < a.len() ==> is_label_char(#[trigger] a[i]),
        forall|i: int| 0 <= i < b.len() ==> is_label_char(#[trigger] b[i]),
        forall|i: int|
            0 <= i < between.len() ==> #[trigger] between[i] == '-' || between[i] == '_'
                || between[i] == ' ',
    ensures
        label(a + between + b) == Some(a + seq!['-'] + b),
{
    let s = a + between + b;
    let dashes = Seq::new(between.len(), |i: int| '-');
    assert(s[0] == a[0] && s.last() == b[b.len() - 1]);
    lemma_nothing_to_drop(s, is_white());
    reveal_strlit(".void");
    assert(drop_suffixes(s, ZONE@) == s) by {
        if ZONE@.is_suffix_of(s) {
            let n: int = s.len() - 5;
            assert(s.subrange(n, s.len() as int)[0] == '.');
            assert(s[n] == '.');
            if n < a.len() {
                assert(a[n] == s[n]);
            } else if n < a.len() + between.len() {
                assert(between[n - a.len()] == s[n]);
            } else {
                assert(b[n - a.len() - between.len()] == s[n]);
            }
        }
    }
    lemma_kept_parts(a, between, b);
    lemma_joined(a, dashes, b);
    let r = a + seq!['-'] + b;
    assert(r[0] == a[0] && r.last() == b[b.len() - 1]);
    lemma_nothing_to_drop(r, is_char('-'));
}

/// Words stay as they are and separators become dashes.
proof fn lemma_kept_parts(a: Seq<char>, between: Seq<char>, b: Seq<char>)
    requires
        forall|i: int| 0 <= i < a.len() ==> is_label_char(#[trigger] a[i]),
        forall|i: int| 0 <= i < b.len() ==> is_label_char(#[trigger] b[i]),
        forall|i: int|
            0 <= i < between.len() ==> #[trigger] between[i] == '-' || between[i] == '_'
                || between[i] == ' ',
    ensures
        kept(a + between + b) == a + Seq::new(between.len(), |i: int| '-') + b,
    decreases between.len() + b.len(),
{
    let s = a + between + b;
    let dashes = Seq::new(between.len(), |i: int| '-');
    if b.len() > 0 {
        let c = b.drop_last();
        assert forall|i: int| 0 <= i < c.len() implies is_label_char(#[trigger] c[i]) by {
            assert(c[i] == b[i]);
        }
        lemma_kept_parts(a, between, c);
        assert(s.drop_last() =~= a + between + c);
        assert(s.last() == b[b.len() - 1]);
        assert(a + dashes + b =~= (a + dashes + c).push(b.last()));
    } else if between.len() > 0 {
        let d = between.drop_last();
        assert forall|i: int| 0 <= i < d.len() implies #[trigger] d[i] == '-' || d[i] == '_' || d[i]
            == ' ' by {
            assert(d[i] == between[i]);
        }
        lemma_kept_parts(a, d, b);
        assert(s.drop_last() =~= a + d + b);
        assert(s.last() == between[between.len() - 1]);
        assert(a + dashes + b =~= (a + Seq::new(d.len(), |i: int| '-') + b).push('-'));
    } else {
        assert(s =~= a);
        assert(a + dashes + b =~= a);
        lemma_well_formed_kept(a);
    }
}

/// A run of dashes between words becomes one.
proof fn lemma_joined(a: Seq<char>, dashes: Seq<char>, b: Seq<char>)
    requires
        a.len() > 0,
        dashes.len() > 0,
        forall|i: int| 0 <= i < a.len() ==> is_label_char(#[trigger] a[i]),
        forall|i: int| 0 <= i < b.len() ==> is_label_char(#[trigger] b[i]),
        forall|i: int| 0 <= i < dashes.len() ==> #[trigger] dashes[i] == '-',
    ensures
        single_dashes(a + dashes + b) == a + seq!['-'] + b,
    decreases dashes.len() + b.len(),
{
    let s = a + dashes + b;
    if b.len() > 0 {
        let c = b.drop_last();
        assert forall|i: int| 0 <= i < c.len() implies is_label_char(#[trigger] c[i]) by {
            assert(c[i] == b[i]);
        }
        lemma_joined(a, dashes, c);
        assert(s.drop_last() =~= a + dashes + c);
        assert(s.last() == b[b.len() - 1]);
        assert(a + seq!['-'] + b =~= (a + seq!['-'] + c).push(b.last()));
    } else if dashes.len() > 1 {
        let d = dashes.drop_last();
        assert forall|i: int| 0 <= i < d.len() implies #[trigger] d[i] == '-' by {
            assert(d[i] == dashes[i]);
        }
        lemma_joined(a, d, b);
        assert(s.drop_last() =~= a + d + b);
        assert(s.last() == dashes[dashes.len() - 1]);
        assert((a + seq!['-'] + b).last() == '-');
    } else {
        assert(s.drop_last() =~= a);
        assert(s.last() == dashes[0]);
        lemma_already_single(a);
        assert(a.last() == a[a.len() - 1]);
        assert(a + seq!['-'] + b =~= a.push('-'));
    }
}

} // verus!
