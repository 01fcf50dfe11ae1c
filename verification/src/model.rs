//! The records the catalogue is made of: listing entries, course pages
//! and courses, each with the mathematical value it stands for.

use vstd::prelude::*;

verus! {

/// The site that every course and department link is relative to.
pub const BASE_URL: &'static str = "https://www.mcgill.ca";

/// A course as listed on a search page: where its own page is, its level
/// and the terms in which it is offered.
#[derive(Debug, Clone)]
pub struct Entry {
    pub url: String,
    pub level: String,
    pub terms: Vec<String>,
}

/// The value of an [`Entry`].
pub struct EntryView {
    pub url: Seq<char>,
    pub level: Seq<char>,
    pub terms: Seq<Seq<char>>,
}

impl View for Entry {
    type V = EntryView;

    open spec fn view(&self) -> EntryView {
        EntryView { url: self.url@, level: self.level@, terms: self.terms.deep_view() }
    }
}

/// A course of the catalogue.
#[derive(Debug, Clone)]
pub struct Course {
    /// A unique alphanumeric identifier
    pub id: String,
    /// The full name of the course
    pub title: String,
    /// The subject code, e.g. MATH, COMP
    pub subject: String,
    /// The course code, e.g. 140, 141
    pub code: String,
    /// The course level, e.g. Undergraduate, Graduate
    pub level: String,
    /// Points to a link to the course on https://www.mcgill.ca
    pub url: String,
    /// The department in which this course is offered, e.g. Management
    pub department: String,
    /// Points to the department page in which this course is offered
    pub department_url: String,
    /// Terms in which this course is offered, e.g. Fall 2022, Winter 2023
    pub terms: Vec<String>,
    /// The full text description of the course
    pub description: String,
    /// All instructors that teach this course for all offered terms
    pub instructors: String,
}

/// The value of a [`Course`].
pub struct CourseView {
    pub id: Seq<char>,
    pub title: Seq<char>,
    pub subject: Seq<char>,
    pub code: Seq<char>,
    pub level: Seq<char>,
    pub url: Seq<char>,
    pub department: Seq<char>,
    pub department_url: Seq<char>,
    pub terms: Seq<Seq<char>>,
    pub description: Seq<char>,
    pub instructors: Seq<char>,
}

impl View for Course {
    type V = CourseView;

    open spec fn view(&self) -> CourseView {
        CourseView {
            id: self.id@,
            title: self.title@,
            subject: self.subject@,
            code: self.code@,
            level: self.level@,
            url: self.url@,
            department: self.department@,
            department_url: self.department_url@,
            terms: self.terms.deep_view(),
            description: self.description@,
            instructors: self.instructors@,
        }
    }
}

/// One search page of the catalogue: its number and where it is.
#[derive(Debug)]
pub struct Page {
    pub number: usize,
    pub url: String,
}

/// What a row of a search page holds, as HTML: the level, the terms
/// (separated by `", "`) and the link to the course page.
pub struct ListingRow {
    pub level: String,
    pub terms: String,
    pub href: String,
}

/// The value of a [`ListingRow`].
pub struct ListingRowView {
    pub level: Seq<char>,
    pub terms: Seq<char>,
    pub href: Seq<char>,
}

impl View for ListingRow {
    type V = ListingRowView;

    open spec fn view(&self) -> ListingRowView {
        ListingRowView { level: self.level@, terms: self.terms@, href: self.href@ }
    }
}

/// What a course page holds, as HTML: the page title, the department
/// paragraph and its link, the description paragraph and the instructors.
pub struct CoursePage {
    pub title: String,
    pub department: String,
    pub department_href: String,
    pub description: String,
    pub instructors: String,
}

/// The value of a [`CoursePage`].
pub struct CoursePageView {
    pub title: Seq<char>,
    pub department: Seq<char>,
    pub department_href: Seq<char>,
    pub description: Seq<char>,
    pub instructors: Seq<char>,
}

impl View for CoursePage {
    type V = CoursePageView;

    open spec fn view(&self) -> CoursePageView {
        CoursePageView {
            title: self.title@,
            department: self.department@,
            department_href: self.department_href@,
            description: self.description@,
            instructors: self.instructors@,
        }
    }
}

/// The values of a list of entries.
pub open spec fn entries_view(v: Seq<Entry>) -> Seq<EntryView> {
    v.map_values(|e: Entry| e@)
}

/// The values of a list of courses.
pub open spec fn courses_view(v: Seq<Course>) -> Seq<CourseView> {
    v.map_values(|c: Course| c@)
}

} // verus!
