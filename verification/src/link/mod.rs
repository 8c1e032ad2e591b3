//! Link detection in terminal content: URLs and file paths, cached per scan.

pub mod detector;
pub mod opener;

use vstd::prelude::*;

verus! {

/// The kind of detected link.
#[derive(Debug, Clone, Copy, PartialEq, Eq, Structural)]
pub enum LinkKind {
    Url,
    FilePath,
}

/// A detected link in the terminal grid.
#[derive(Debug, PartialEq, Eq)]
pub struct DetectedLink {
    pub kind: LinkKind,
    /// (row, col)
    pub start: (usize, usize),
    /// (row, col) — inclusive
    pub end: (usize, usize),
    pub text: String,
}

/// A detected link as plain values.
pub ghost struct LinkModel {
    pub kind: LinkKind,
    pub start_row: int,
    pub start_col: int,
    pub end_row: int,
    pub end_col: int,
    pub text: Seq<char>,
}

impl View for DetectedLink {
    type V = LinkModel;

    open spec fn view(&self) -> LinkModel {
        LinkModel {
            kind: self.kind,
            start_row: self.start.0 as int,
            start_col: self.start.1 as int,
            end_row: self.end.0 as int,
            end_col: self.end.1 as int,
            text: self.text@,
        }
    }
}

/// The views of a list of links.
pub open spec fn link_models(links: Seq<DetectedLink>) -> Seq<LinkModel> {
    links.map_values(|l: DetectedLink| l@)
}

impl Clone for DetectedLink {
    fn clone(&self) -> (r: Self)
        ensures
            r@ == self@,
    {
        DetectedLink { kind: self.kind, start: self.start, end: self.end, text: self.text.clone() }
    }
}

/// Whether grid position (row, col) falls within the link.
pub open spec fn link_contains(l: LinkModel, row: int, col: int) -> bool {
    if l.start_row == l.end_row {
        row == l.start_row && l.start_col <= col <= l.end_col
    } else if row == l.start_row {
        col >= l.start_col
    } else if row == l.end_row {
        col <= l.end_col
    } else {
        l.start_row < row < l.end_row
    }
}

impl DetectedLink {
    /// Returns true if the given grid position (row, col) falls within this link.
    pub fn contains(&self, row: usize, col: usize) -> (b: bool)
        ensures
            b == link_contains(self@, row as int, col as int),
    {
        if self.start.0 == self.end.0 {
            row == self.start.0 && col >= self.start.1 && col <= self.end.1
        } else if row == self.start.0 {
            col >= self.start.1
        } else if row == self.end.0 {
            col <= self.end.1
        } else {
            row > self.start.0 && row < self.end.0
        }
    }
}

/// Scans terminal content and caches detected links.
pub struct LinkDetector {
    links: Vec<DetectedLink>,
    generation: u64,
}

impl LinkDetector {
    /// The cached links.
    pub closed spec fn cached(&self) -> Seq<LinkModel> {
        link_models(self.links@)
    }

    /// The number of scans so far.
    pub closed spec fn scans(&self) -> u64 {
        self.generation
    }

    /// An empty detector at generation 0.
    pub fn new() -> (d: Self)
        ensures
            d.cached() == Seq::<LinkModel>::empty(),
            d.scans() == 0,
    {
        let d = LinkDetector { links: Vec::new(), generation: 0 };
        assert(d.cached() =~= Seq::<LinkModel>::empty());
        d
    }

    /// Scan the provided lines for URLs and file paths.
    /// Each line corresponds to a terminal row. The cache becomes the URLs
    /// followed by the paths; the generation counter goes up by one.
    pub fn scan(&mut self, lines: &[String])
        requires
            old(self).scans() < u64::MAX,
        ensures
            final(self).scans() == old(self).scans() + 1,
            final(self).cached() == detector::url_links_in_lines(lines@.map_values(|s: String| s@))
                + detector::path_links_in_lines(lines@.map_values(|s: String| s@)),
    {
        self.generation = self.generation + 1;
        self.links.clear();
        let mut urls = detector::detect_urls(lines);
        let mut paths = detector::detect_paths(lines);
        let ghost u = urls@;
        let ghost p = paths@;
        self.links.append(&mut urls);
        self.links.append(&mut paths);
        proof {
            assert(self.links@ =~= u + p);
            assert(link_models(self.links@) =~= link_models(u) + link_models(p));
        }
    }

    /// Returns the first cached link containing the given grid position, if any.
    pub fn link_at(&self, row: usize, col: usize) -> (r: Option<&DetectedLink>)
        ensures
            match r {
                Some(l) => exists|i: int|
                    0 <= i < self.cached().len() && self.cached()[i] == l@
                        && link_contains(l@, row as int, col as int)
                        && forall|j: int| 0 <= j < i ==> !link_contains(#[trigger] self.cached()[j], row as int, col as int),
                None => forall|j: int| 0 <= j < self.cached().len() ==> !link_contains(#[trigger] self.cached()[j], row as int, col as int),
            },
    {
        let mut i: usize = 0;
        while i < self.links.len()
            invariant
                i <= self.links@.len(),
                forall|j: int| 0 <= j < i ==> !link_contains(#[trigger] self.cached()[j], row as int, col as int),
            decreases self.links.len() - i,
        {
            if self.links[i].contains(row, col) {
                assert(self.cached()[i as int] == self.links@[i as int]@);
                return Some(&self.links[i]);
            }
            i = i + 1;
        }
        None
    }

    /// Returns all detected links.
    pub fn links(&self) -> (r: &[DetectedLink])
        ensures
            link_models(r@) == self.cached(),
    {
        self.links.as_slice()
    }

    /// Returns the current generation counter.
    pub fn generation(&self) -> (g: u64)
        ensures
            g == self.scans(),
    {
        self.generation
    }

    /// Clears all detected links (e.g., when link highlight should be removed).
    pub fn clear(&mut self)
        ensures
            final(self).cached() == Seq::<LinkModel>::empty(),
            final(self).scans() == old(self).scans(),
    {
        self.links.clear();
        assert(self.cached() =~= Seq::<LinkModel>::empty());
    }
}

} // verus!
