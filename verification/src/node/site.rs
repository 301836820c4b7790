//! The manifest of a site: files of the network under paths, with a name.

use vstd::prelude::*;

use crate::node::identity::NodeId;
use crate::util::text::{
    chars_of, drop_leading, is_char, law_front_is_dropped, same_text, skip_matching, text_of,
};

verus! {

/// One file of a site.
#[derive(Debug, Clone, PartialEq, Eq)]
pub struct SiteEntry {
    /// The path within the site.
    pub path: String,
    /// The file in the storage.
    pub file_id: String,
    pub size_bytes: i64,
}

/// The manifest of a site.
#[derive(Debug, Clone, PartialEq, Eq)]
pub struct SiteManifest {
    /// A digest over the manifest.
    pub site_id: String,
    /// The site's name without its zone.
    pub name: String,
    pub owner: NodeId,
    pub entries: Vec<SiteEntry>,
    /// When the site was published, in seconds of Unix time.
    pub created_at: i64,
}

/// An owner's signed word that a site is gone. Announcements of the site that are not
/// younger than that are not taken any more.
#[derive(Debug, Clone, PartialEq, Eq)]
pub struct SiteRevocation {
    /// The site's name without its zone.
    pub name: String,
    /// The owner, who has to be the signer.
    pub owner: NodeId,
    /// When the site was taken down, in seconds of Unix time.
    pub revoked_at: i64,
}

/// The sum of the sizes of the files.
pub open spec fn size_sum(entries: Seq<SiteEntry>) -> int
    decreases entries.len(),
{
    if entries.len() == 0 {
        0
    } else {
        size_sum(entries.drop_last()) + entries.last().size_bytes
    }
}

/// Whether the sizes can be added up, one after the other.
pub open spec fn sizes_add_up(entries: Seq<SiteEntry>) -> bool {
    forall|n: int|
        0 <= n <= entries.len() ==> i64::MIN <= #[trigger] size_sum(entries.take(n)) <= i64::MAX
}

/// A path without the slashes at its front.
pub open spec fn site_path(path: Seq<char>) -> Seq<char> {
    drop_leading(path, is_char('/'))
}

impl SiteManifest {
    /// The name in the internal zone.
    pub fn dns_name(&self) -> (r: String)
        ensures
            r@ == self.name@ + ".void"@,
    {
        let mut out: String = self.name.clone();
        out.append(".void");
        out
    }

    /// The first entry with the given path; slashes at the front of the path do not
    /// count.
    pub fn entry(&self, path: &str) -> (r: Option<&SiteEntry>)
        ensures
            match r {
                Some(e) => exists|i: int|
                    {
                        &&& 0 <= i < self.entries@.len()
                        &&& *e == #[trigger] self.entries@[i]
                        &&& e.path@ == site_path(path@)
                        &&& forall|j: int|
                            0 <= j < i ==> (#[trigger] self.entries@[j]).path@ != site_path(path@)
                    },
                None => forall|j: int|
                    0 <= j < self.entries@.len() ==> (#[trigger] self.entries@[j]).path@
                        != site_path(path@),
            },
    {
        let chars: Vec<char> = chars_of(path);
        let needle: String = text_of(skip_matching(chars.as_slice(), '/'));
        let mut i: usize = 0;
        while i < self.entries.len()
            invariant
                i <= self.entries@.len(),
                needle@ == site_path(path@),
                forall|j: int| 0 <= j < i ==> (#[trigger] self.entries@[j]).path@ != needle@,
            decreases self.entries@.len() - i,
        {
            if same_text(self.entries[i].path.as_str(), needle.as_str()) {
                return Some(&self.entries[i]);
            }
            i = i + 1;
        }
        None
    }

    /// The start page, if there is one.
    pub fn index(&self) -> (r: Option<&SiteEntry>)
        ensures
            match r {
                Some(e) => exists|i: int|
                    {
                        &&& 0 <= i < self.entries@.len()
                        &&& *e == #[trigger] self.entries@[i]
                        &&& e.path@ == "index.html"@
                        &&& forall|j: int|
                            0 <= j < i ==> (#[trigger] self.entries@[j]).path@ != "index.html"@
                    },
                None => forall|j: int|
                    0 <= j < self.entries@.len() ==> (#[trigger] self.entries@[j]).path@
                        != "index.html"@,
            },
    {
        proof {
            reveal_strlit("index.html");
            assert(site_path("index.html"@) == "index.html"@);
        }
        self.entry("index.html")
    }

    /// The size of the site in bytes.
    pub fn total_size(&self) -> (r: i64)
        requires
            sizes_add_up(self.entries@),
        ensures
            r == size_sum(self.entries@),
    {
        let mut sum: i64 = 0;
        let mut i: usize = 0;
        while i < self.entries.len()
            invariant
                i <= self.entries@.len(),
                sizes_add_up(self.entries@),
                sum == size_sum(self.entries@.take(i as int)),
            decreases self.entries@.len() - i,
        {
            assert(self.entries@.take(i + 1).drop_last() =~= self.entries@.take(i as int));
            assert(i64::MIN <= size_sum(self.entries@.take(i + 1)) <= i64::MAX);
            sum = sum + self.entries[i].size_bytes;
            i = i + 1;
        }
        assert(self.entries@.take(i as int) =~= self.entries@);
        sum
    }
}

/// The size of a site is the sum of the sizes of its files, each counted once.
pub proof fn law_every_file_counts(entries: Seq<SiteEntry>, e: SiteEntry)
    ensures
        size_sum(seq![]) == 0,
        size_sum(entries.push(e)) == size_sum(entries) + e.size_bytes,
{
    assert(entries.push(e).drop_last() =~= entries);
}

/// Slashes at the front of a path do not count, however many there are, and nothing else is
/// taken from it.
pub proof fn law_slashes_in_front_do_not_count(slashes: Seq<char>, path: Seq<char>)
    requires
        forall|i: int| 0 <= i < slashes.len() ==> #[trigger] slashes[i] == '/',
        path.len() == 0 || path[0] != '/',
    ensures
        site_path(slashes + path) == path,
{
    let s = slashes + path;
    let p = is_char('/');
    law_front_is_dropped(s, p);
    let n: int = s.len() - site_path(s).len();
    let k: int = slashes.len() as int;
    assert forall|i: int| 0 <= i < k implies p(#[trigger] s[i]) by {
        assert(s[i] == slashes[i]);
    }
    if path.len() > 0 {
        assert(s[k] == path[0]);
    }
    assert(n == k);
    assert(site_path(s) =~= path);
}

/// Sizes that are not negative add up wherever their sum can be held.
pub proof fn law_sizes_that_add_up(entries: Seq<SiteEntry>)
    requires
        forall|i: int| 0 <= i < entries.len() ==> (#[trigger] entries[i]).size_bytes >= 0,
        size_sum(entries) <= i64::MAX,
    ensures
        sizes_add_up(entries),
{
    assert forall|n: int| 0 <= n <= entries.len() implies i64::MIN <= #[trigger] size_sum(
        entries.take(n),
    ) <= i64::MAX by {
        lemma_sum_grows(entries, n);
    }
}

/// Sizes that are not negative make no sum smaller.
proof fn lemma_sum_grows(entries: Seq<SiteEntry>, n: int)
    requires
        0 <= n <= entries.len(),
        forall|i: int| 0 <= i < entries.len() ==> (#[trigger] entries[i]).size_bytes >= 0,
    ensures
        0 <= size_sum(entries.take(n)) <= size_sum(entries),
    decreases entries.len(),
{
    if entries.len() > 0 {
        let head = entries.drop_last();
        assert forall|i: int| 0 <= i < head.len() implies (#[trigger] head[i]).size_bytes >= 0 by {
            assert(head[i] == entries[i]);
        }
        assert(entries.last() == entries[entries.len() - 1]);
        if n == entries.len() {
            assert(entries.take(n) =~= entries);
            lemma_sum_grows(head, head.len() as int);
            assert(head.take(head.len() as int) =~= head);
        } else {
            lemma_sum_grows(head, n);
            assert(head.take(n) =~= entries.take(n));
        }
    } else {
        assert(entries.take(n) =~= entries);
    }
}

} // verus!
