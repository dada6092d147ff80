//! The result of an analysis: three listings of what is not used.

use crate::string_set::texts;
use vstd::prelude::*;

verus! {

/// What an analysis found unused. Each listing is in ascending order and names
/// nothing twice.
#[derive(Debug)]
pub struct AnalysisReport {
    /// Dependencies that no import statement begins with.
    pub unused_dependencies: Vec<String>,
    /// Functions that nothing calls directly, as `fn name`.
    pub unused_functions: Vec<String>,
    /// Modules that nothing marks as used, as `mod name`.
    pub unused_modules: Vec<String>,
}

/// The three listings of a report, in the order in which they are shown.
#[derive(Clone, Copy, Debug, PartialEq, Eq, Structural)]
pub enum Category {
    /// Dependencies that are not imported.
    Dependencies,
    /// Functions that are not called.
    Functions,
    /// Modules that are not used.
    Modules,
}

impl Category {
    /// The line that a listing is shown under, as characters.
    pub open spec fn spec_heading(self) -> Seq<char> {
        match self {
            Category::Dependencies => "Unused Dependencies:"@,
            Category::Functions => "Unused Functions:"@,
            Category::Modules => "Unused Modules:"@,
        }
    }

    /// The line that a listing is shown under.
    pub fn heading(&self) -> (text: &'static str)
        ensures
            text@ == self.spec_heading(),
    {
        match self {
            Category::Dependencies => "Unused Dependencies:",
            Category::Functions => "Unused Functions:",
            Category::Modules => "Unused Modules:",
        }
    }
}

impl AnalysisReport {
    /// The listing of one category.
    pub open spec fn listing(self, category: Category) -> Vec<String> {
        match category {
            Category::Dependencies => self.unused_dependencies,
            Category::Functions => self.unused_functions,
            Category::Modules => self.unused_modules,
        }
    }

    /// The two reports read the same, entry by entry.
    pub open spec fn same_entries(self, other: AnalysisReport) -> bool {
        &&& texts(self.unused_dependencies@) == texts(other.unused_dependencies@)
        &&& texts(self.unused_functions@) == texts(other.unused_functions@)
        &&& texts(self.unused_modules@) == texts(other.unused_modules@)
    }

    /// `category`, if its listing holds anything.
    pub open spec fn shown(self, category: Category) -> Seq<Category> {
        if self.listing(category)@.len() > 0 {
            seq![category]
        } else {
            Seq::empty()
        }
    }

    /// A report that lists nothing.
    pub fn new() -> (report: Self)
        ensures
            report.unused_dependencies@.len() == 0,
            report.unused_functions@.len() == 0,
            report.unused_modules@.len() == 0,
    {
        AnalysisReport {
            unused_dependencies: Vec::new(),
            unused_functions: Vec::new(),
            unused_modules: Vec::new(),
        }
    }

    /// The listing of one category.
    pub fn entries(&self, category: Category) -> (listing: &Vec<String>)
        ensures
            *listing == self.listing(category),
    {
        match category {
            Category::Dependencies => &self.unused_dependencies,
            Category::Functions => &self.unused_functions,
            Category::Modules => &self.unused_modules,
        }
    }

    /// Whether nothing at all is reported.
    pub fn is_empty(&self) -> (empty: bool)
        ensures
            empty == (self.unused_dependencies@.len() == 0 && self.unused_functions@.len() == 0
                && self.unused_modules@.len() == 0),
    {
        self.unused_dependencies.len() == 0 && self.unused_functions.len() == 0
            && self.unused_modules.len() == 0
    }

    /// The categories to show, in order: those whose listing holds something.
    /// There is none exactly if nothing is reported.
    pub fn categories(&self) -> (shown: Vec<Category>)
        ensures
            shown@ == self.shown(Category::Dependencies) + self.shown(Category::Functions)
                + self.shown(Category::Modules),
            shown@.len() == 0 <==> self.unused_dependencies@.len() == 0
                && self.unused_functions@.len() == 0 && self.unused_modules@.len() == 0,
    {
        let mut shown: Vec<Category> = Vec::new();
        if self.unused_dependencies.len() > 0 {
            shown.push(Category::Dependencies);
        }
        if self.unused_functions.len() > 0 {
            shown.push(Category::Functions);
        }
        if self.unused_modules.len() > 0 {
            shown.push(Category::Modules);
        }
        assert(shown@ =~= self.shown(Category::Dependencies) + self.shown(Category::Functions)
            + self.shown(Category::Modules));
        shown
    }
}

} // verus!
