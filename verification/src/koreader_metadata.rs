//! The reader's own record of a book: annotations, summary and progress, as
//! found in a metadata sidecar.

use vstd::prelude::*;
use crate::library_item::BookStatus;
use crate::paths::text_of;

verus! {

/// A highlight or a bookmark that the reader made.
#[derive(Debug, Clone)]
pub struct Annotation {
    pub chapter: Option<String>,
    pub datetime: Option<String>,
    pub pageno: Option<u32>,
    pub text: Option<String>,
    pub note: Option<String>,
    pub pos0: Option<String>,
    pub pos1: Option<String>,
}

impl Annotation {
    /// A bookmark marks a place and covers no text: it has neither end of a
    /// text range.
    pub open spec fn spec_is_bookmark(&self) -> bool {
        self.pos0.is_none() && self.pos1.is_none()
    }

    #[verifier::when_used_as_spec(spec_is_bookmark)]
    pub fn is_bookmark(&self) -> (r: bool)
        ensures
            r == self.spec_is_bookmark(),
    {
        self.pos0.is_none() && self.pos1.is_none()
    }

    /// Every annotation that is no bookmark is a highlight.
    pub open spec fn spec_is_highlight(&self) -> bool {
        !self.spec_is_bookmark()
    }

    #[verifier::when_used_as_spec(spec_is_highlight)]
    pub fn is_highlight(&self) -> (r: bool)
        ensures
            r == self.spec_is_highlight(),
    {
        !self.is_bookmark()
    }
}

/// The reader's verdict on a book.
#[derive(Debug, Clone)]
pub struct Summary {
    pub status: BookStatus,
    pub rating: Option<u32>,
    pub note: Option<String>,
    pub modified: Option<String>,
}

/// Counters that the reader keeps per document.
#[derive(Debug, Clone, Copy, PartialEq, Eq, Structural)]
pub struct DocumentStats {
    pub notes: Option<u32>,
    pub highlights: Option<u32>,
    pub pages: Option<u32>,
}

/// Everything a metadata sidecar says about one book. Each part may be
/// missing on its own.
#[derive(Debug, Clone)]
pub struct KoReaderMetadata {
    pub annotations: Vec<Annotation>,
    pub summary: Option<Summary>,
    /// Progress through the book in millionths: 1_000_000 is the whole book.
    pub percent_finished: Option<u32>,
    pub doc_pages: Option<u32>,
    pub stats: Option<DocumentStats>,
    pub text_lang: Option<String>,
    /// The content fingerprint as the reader recorded it.
    pub partial_md5_checksum: Option<String>,
}

/// How many of the annotations are bookmarks.
pub open spec fn bookmark_total(a: Seq<Annotation>) -> nat
    decreases a.len(),
{
    if a.len() == 0 {
        0
    } else {
        bookmark_total(a.drop_last()) + if a.last().spec_is_bookmark() {
            1nat
        } else {
            0nat
        }
    }
}

/// Bookmarks are a part of the annotations.
pub proof fn lemma_bookmark_total_bound(a: Seq<Annotation>)
    ensures
        bookmark_total(a) <= a.len(),
    decreases a.len(),
{
    if a.len() > 0 {
        lemma_bookmark_total_bound(a.drop_last());
    }
}

impl KoReaderMetadata {
    /// Metadata that says nothing.
    pub fn empty() -> (r: Self)
        ensures
            r.annotations@.len() == 0,
            r.summary.is_none(),
            r.percent_finished.is_none(),
            r.doc_pages.is_none(),
            r.stats.is_none(),
            r.text_lang.is_none(),
            r.partial_md5_checksum.is_none(),
    {
        KoReaderMetadata {
            annotations: Vec::new(),
            summary: None,
            percent_finished: None,
            doc_pages: None,
            stats: None,
            text_lang: None,
            partial_md5_checksum: None,
        }
    }

    /// The number of bookmarks among the annotations.
    pub fn bookmark_count(&self) -> (r: usize)
        ensures
            r as nat == bookmark_total(self.annotations@),
    {
        let mut n: usize = 0;
        let mut i: usize = 0;
        while i < self.annotations.len()
            invariant
                i <= self.annotations.len(),
                n as nat == bookmark_total(self.annotations@.take(i as int)),
                n <= i,
            decreases self.annotations.len() - i,
        {
            proof {
                assert(self.annotations@.take(i + 1).drop_last() =~= self.annotations@.take(
                    i as int,
                ));
            }
            if self.annotations[i].is_bookmark() {
                n += 1;
            }
            i += 1;
        }
        assert(self.annotations@.take(i as int) =~= self.annotations@);
        n
    }
}

/// An annotation as plain data.
pub struct AnnotationView {
    pub chapter: Option<Seq<char>>,
    pub datetime: Option<Seq<char>>,
    pub pageno: Option<u32>,
    pub text: Option<Seq<char>>,
    pub note: Option<Seq<char>>,
    pub pos0: Option<Seq<char>>,
    pub pos1: Option<Seq<char>>,
}

impl View for Annotation {
    type V = AnnotationView;

    open spec fn view(&self) -> AnnotationView {
        AnnotationView {
            chapter: text_of(self.chapter),
            datetime: text_of(self.datetime),
            pageno: self.pageno,
            text: text_of(self.text),
            note: text_of(self.note),
            pos0: text_of(self.pos0),
            pos1: text_of(self.pos1),
        }
    }
}

/// A summary as plain data.
pub struct SummaryView {
    pub status: BookStatus,
    pub rating: Option<u32>,
    pub note: Option<Seq<char>>,
    pub modified: Option<Seq<char>>,
}

impl View for Summary {
    type V = SummaryView;

    open spec fn view(&self) -> SummaryView {
        SummaryView {
            status: self.status,
            rating: self.rating,
            note: text_of(self.note),
            modified: text_of(self.modified),
        }
    }
}

/// Metadata as plain data.
pub struct MetadataView {
    pub annotations: Seq<AnnotationView>,
    pub summary: Option<SummaryView>,
    pub percent_finished: Option<u32>,
    pub doc_pages: Option<u32>,
    pub stats: Option<DocumentStats>,
    pub text_lang: Option<Seq<char>>,
    pub partial_md5_checksum: Option<Seq<char>>,
}

/// The annotations as plain data.
pub open spec fn annotation_views(s: Seq<Annotation>) -> Seq<AnnotationView> {
    s.map_values(|a: Annotation| a@)
}

impl View for KoReaderMetadata {
    type V = MetadataView;

    open spec fn view(&self) -> MetadataView {
        MetadataView {
            annotations: annotation_views(self.annotations@),
            summary: match self.summary {
                Some(s) => Some(s@),
                None => None,
            },
            percent_finished: self.percent_finished,
            doc_pages: self.doc_pages,
            stats: self.stats,
            text_lang: text_of(self.text_lang),
            partial_md5_checksum: text_of(self.partial_md5_checksum),
        }
    }
}

} // verus!
