use mcgill_wtf::dom::{
    attribute, select_many, select_optional, select_single, Document, ExtractError,
};
use mcgill_wtf::extractor::Extractor;
use mcgill_wtf::model::{Course, CoursePage, Entry, ListingRow};

fn row(level: &str, terms: &str, href: &str) -> String {
    format!(
        "<div class=\"views-row views-row-odd\">\
           <span class=\"views-field views-field-level\"><span class=\"field-content\">{}</span></span>\
           <span class=\"views-field views-field-terms\"><span class=\"field-content\">{}</span></span>\
           <div class=\"views-field views-field-field-course-title-long\"><h4 class=\"field-content\"><a href=\"{}\">Course</a></h4></div>\
         </div>",
        level, terms, href
    )
}

fn search_page(rows: &[String]) -> String {
    format!(
        "<div id=\"content\"><div class=\"view-content\">{}</div></div>",
        rows.concat()
    )
}

fn course_page() -> String {
    "<h1 id=\"page-title\">\n  CMSC 000 Foundations of Mathematics (3 credits)\n</h1>\
     <div class=\"node node-catalog clearfix\">\
       <div class=\"meta\"><p>Offered by: Adaptive &amp; Integrated Learning (<a href=\"/study/2022-2023/faculties/continuing\">Continuing Studies</a>)</p></div>\
       <div class=\"content\"><p>\n  Mathematics &amp; Statistics (Sci) : Review of basic algebra.\n</p></div>\
       <p class=\"catalog-instructors\">\n  Instructors: Chouha, Paul (Fall)\n</p>\
     </div>"
        .to_string()
}

#[test]
fn page() {
    let mut rows = Vec::new();
    for i in 0..16 {
        rows.push(row(
            "Undergraduate",
            "Fall 2022, Winter 2023",
            &format!("/study/2022-2023/courses/comp-{}", 200 + i),
        ));
    }
    rows.push(row(
        "Undergraduate",
        "Not Offered",
        "/study/2022-2023/courses/comp-999",
    ));
    let entries = Extractor::extract_page(&search_page(&rows)).unwrap();

    assert!(entries.is_some());

    assert_eq!(entries.unwrap().len(), 16);
}

#[test]
fn course() {
    let entry = Entry {
        level: "Undergraduate".into(),
        terms: vec!["Fall 2022".into(), "Winter 2022".into()],
        url: "https://www.mcgill.ca/study/2022-2023/courses/cmsc-000".into(),
    };

    let Course {
        title,
        subject,
        code,
        level,
        url,
        department,
        department_url,
        terms,
        instructors,
        ..
    } = Extractor::extract_course(entry.clone(), &course_page()).unwrap();

    assert_eq!(title, "Foundations of Mathematics (3 credits)");

    assert_eq!(subject, "CMSC");

    assert_eq!(code, "000");

    assert_eq!(level, entry.level);

    assert_eq!(url, entry.url);

    assert_eq!(terms, entry.terms);

    assert_eq!(department, "Adaptive &amp; Integrated Learning");

    assert_eq!(
        department_url,
        "https://www.mcgill.ca/study/2022-2023/faculties/continuing"
    );

    assert_eq!(terms, vec!["Fall 2022", "Winter 2022"]);

    assert_eq!(instructors, "Chouha, Paul (Fall)");
}

#[test]
fn course_description_and_identifier() {
    let entry = Entry { level: "Undergraduate".into(), terms: vec![], url: "u".into() };
    let course = Extractor::extract_course(entry, &course_page()).unwrap();
    assert_eq!(course.description, "Review of basic algebra.");
    let expected = uuid::Uuid::new_v5(&uuid::Uuid::NAMESPACE_X500, "CMSC 000".as_bytes())
        .simple()
        .to_string();
    assert_eq!(course.id, expected);
    assert_eq!(course.id.len(), 32);
    assert!(course.id.chars().all(|c| c.is_ascii_alphanumeric()));
    assert_ne!(
        course.id,
        uuid::Uuid::new_v5(&uuid::Uuid::NAMESPACE_X500, "CMSC000".as_bytes())
            .simple()
            .to_string()
    );
}

#[test]
fn page_without_results() {
    let html = "<div class=\"view-empty\">No results</div>";
    assert!(matches!(Extractor::extract_page(html), Ok(None)));
}

#[test]
fn page_drops_courses_not_offered_and_keeps_order() {
    let rows = vec![
        row("Graduate", "Fall 2022", "/a"),
        row("Undergraduate", "Not Offered", "/b"),
        row("Undergraduate", "Winter 2023, Summer 2023", "/c"),
    ];
    let entries = Extractor::extract_page(&search_page(&rows)).unwrap().unwrap();
    assert_eq!(entries.len(), 2);
    assert_eq!(entries[0].url, "https://www.mcgill.ca/a");
    assert_eq!(entries[0].level, "Graduate");
    assert_eq!(entries[0].terms, vec!["Fall 2022"]);
    assert_eq!(entries[1].url, "https://www.mcgill.ca/c");
    assert_eq!(entries[1].terms, vec!["Winter 2023", "Summer 2023"]);
}

#[test]
fn page_row_without_link_fails() {
    let html = search_page(&[
        "<div class=\"views-row\">\
           <span class=\"views-field-level\"><span class=\"field-content\">U</span></span>\
           <span class=\"views-field-terms\"><span class=\"field-content\">Fall</span></span>\
           <div class=\"views-field-field-course-title-long\"><a>Course</a></div>\
         </div>"
            .to_string(),
    ]);
    match Extractor::extract_page(&html) {
        Err(ExtractError::Attribute(name)) => assert_eq!(name, "href"),
        _ => panic!("expected a missing attribute"),
    }
}

#[test]
fn page_row_without_level_fails() {
    let html = search_page(&["<div class=\"views-row\"><span>nothing</span></div>".to_string()]);
    match Extractor::extract_page(&html) {
        Err(ExtractError::Missing(selector)) => {
            assert_eq!(selector, "span[class~='views-field-level']")
        }
        _ => panic!("expected a missing element"),
    }
}

#[test]
fn course_page_without_title_fails() {
    let entry = Entry { level: "U".into(), terms: vec![], url: "u".into() };
    match Extractor::extract_course(entry, "<p>nothing</p>") {
        Err(ExtractError::Missing(selector)) => assert_eq!(selector, "h1[id='page-title']"),
        _ => panic!("expected a missing element"),
    }
}

#[test]
fn entry_from_row_splits_terms_and_absolutizes_link() {
    let entry = Extractor::entry_from_row(&ListingRow {
        level: "Graduate".into(),
        terms: "Fall 2022, Winter 2023,Summer".into(),
        href: "/x".into(),
    });
    assert_eq!(entry.url, "https://www.mcgill.ca/x");
    assert_eq!(entry.terms, vec!["Fall 2022", "Winter 2023,Summer"]);
    assert!(Extractor::offered(&entry));
}

#[test]
fn entries_filter_not_offered() {
    let rows = vec![
        ListingRow { level: "a".into(), terms: "Not Offered".into(), href: "/1".into() },
        ListingRow { level: "b".into(), terms: "Fall, Not Offered".into(), href: "/2".into() },
        ListingRow { level: "c".into(), terms: "Not offered".into(), href: "/3".into() },
    ];
    let entries = Extractor::entries(&rows);
    assert_eq!(entries.len(), 1);
    assert_eq!(entries[0].level, "c");
}

#[test]
fn course_from_page_short_titles() {
    let entry = Entry { level: "U".into(), terms: vec![], url: "u".into() };
    let page = CoursePage {
        title: "  MATH  ".into(),
        department: "no colon here".into(),
        department_href: "/d".into(),
        description: "plain".into(),
        instructors: "Instructors:".into(),
    };
    let course = Extractor::course_from_page(entry, &page);
    assert_eq!(course.subject, "MATH");
    assert_eq!(course.code, "");
    assert_eq!(course.title, "");
    assert_eq!(course.department, "");
    assert_eq!(course.department_url, "https://www.mcgill.ca/d");
    assert_eq!(course.description, "");
    assert_eq!(course.instructors, "");
}

#[test]
fn course_from_page_title_law_example() {
    let entry = Entry { level: "U".into(), terms: vec![], url: "u".into() };
    let page = CoursePage {
        title: "COMP 250 Introduction to Computer Science".into(),
        department: "Offered by: Computer Science (Faculty of Science)".into(),
        department_href: "/d".into(),
        description: "Computer Science (Sci) : Mathematical tools: binary numbers".into(),
        instructors: "Instructors: A, B".into(),
    };
    let course = Extractor::course_from_page(entry, &page);
    assert_eq!(
        format!("{} {} {}", course.subject, course.code, course.title),
        "COMP 250 Introduction to Computer Science"
    );
    assert_eq!(course.department, "Computer Science");
    assert_eq!(course.description, "Mathematical tools  binary numbers");
    assert_eq!(course.instructors, "A, B");
}

#[test]
fn invalid_selectors_are_refused() {
    let doc = Document::parse("<div><p>a</p><p title=\"t\">b</p></div>");
    let root = doc.root();
    match select_many(&doc, root, "div[") {
        Err(ExtractError::Selector(s)) => assert_eq!(s, "div["),
        _ => panic!("expected a selector error"),
    }
    let paragraphs = select_many(&doc, root, "p").unwrap();
    assert_eq!(paragraphs.len(), 2);
    assert_eq!(doc.inner_html(paragraphs[1]), "b");
    let first = select_single(&doc, root, "p").unwrap();
    assert_eq!(doc.inner_html(first), "a");
    assert_eq!(first, paragraphs[0]);
    assert!(select_optional(&doc, root, "span").unwrap().is_none());
    match select_single(&doc, root, "span") {
        Err(ExtractError::Missing(s)) => assert_eq!(s, "span"),
        _ => panic!("expected a missing element"),
    }
    assert_eq!(attribute(&doc, paragraphs[1], "title").unwrap(), "t");
    assert!(attribute(&doc, paragraphs[0], "title").is_err());
    let div = select_single(&doc, root, "div").unwrap();
    assert_eq!(select_many(&doc, div, "div").unwrap().len(), 0);
    assert_eq!(doc.inner_html(div), "<p>a</p><p title=\"t\">b</p>");
}

#[test]
fn required_attribute_values() {
    assert_eq!(mcgill_wtf::dom::required(Some("/x".to_string()), "href").unwrap(), "/x");
    match mcgill_wtf::dom::required(None, "href") {
        Err(ExtractError::Attribute(name)) => assert_eq!(name, "href"),
        _ => panic!("expected a missing attribute"),
    }
}

#[test]
fn page_with_not_offered_row_anywhere_yields_the_same() {
    let rows = vec![
        row("Graduate", "Fall 2022", "/a"),
        row("Undergraduate", "Winter 2023, Summer 2023", "/c"),
    ];
    let plain = Extractor::extract_page(&search_page(&rows)).unwrap().unwrap();
    for at in 0..=rows.len() {
        let mut with_row = rows.clone();
        with_row.insert(at, row("Undergraduate", "Not Offered", "/b"));
        let got = Extractor::extract_page(&search_page(&with_row)).unwrap().unwrap();
        assert_eq!(got.len(), plain.len());
        for (a, b) in got.iter().zip(plain.iter()) {
            assert_eq!(a.level, b.level);
            assert_eq!(a.terms, b.terms);
            assert_eq!(a.url, b.url);
        }
    }
}
