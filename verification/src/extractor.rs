//! Reading the catalogue's HTML: search pages give listing entries, course
//! pages give courses.

use vstd::prelude::*;

use crate::dom::{
    attribute, attribute_value, inner_html_at, many, optional, root_of, select_many,
    select_optional, select_single, single, element_at, Document, ExtractError, Fault,
};
use crate::model::{
    entries_view, Course, CoursePage, CoursePageView, CourseView, Entry, EntryView, ListingRow,
    ListingRowView, BASE_URL,
};
use crate::text::{
    is_white_space, law_trim_ends, lemma_split_append, lemma_split_from_free, lemma_trim_fixed,
    law_join_split, law_split_join, law_split_pieces_free, lemma_join_prepend,
    lemma_split_from_nonempty, lemma_split_from_unseparated, concat, join, join_range, skip_up_to, split, split_str, strs_view, take_up_to, to_owned_all,
    trim, trim_str,
};

verus! {

/// The name-based (version 5) UUID of `name`'s UTF-8 bytes in the X.500
/// namespace, in its simple text form.
pub uninterp spec fn uuid_v5_x500(name: Seq<char>) -> Seq<char>;

/// A lowercase hexadecimal digit.
pub open spec fn is_hex_digit(c: char) -> bool {
    ('0' <= c && c <= '9') || ('a' <= c && c <= 'f')
}

/// Calls `uuid::Uuid::new_v5` with `Uuid::NAMESPACE_X500` on the bytes of
/// `name` and renders the result with `simple().to_string()`. Claimed: the
/// text is [`uuid_v5_x500`] of `name`, a value fixed by `name` alone
/// (version 5 UUIDs hash the namespace and the name with SHA-1; nothing else
/// enters), and it is 32 lowercase hexadecimal digits, as the `Simple`
/// formatter writes the 16 bytes.
#[verifier::external_body]
fn uuid_v5_text(name: &str) -> (res: String)
    ensures
        res@ == uuid_v5_x500(name@),
        res@.len() == 32,
        forall|i: int| 0 <= i < 32 ==> is_hex_digit(#[trigger] res@[i]),
{
    uuid::Uuid::new_v5(&uuid::Uuid::NAMESPACE_X500, name.as_bytes()).simple().to_string()
}

/// The result list of a search page.
pub const VIEW_CONTENT: &'static str = "div[class='view-content']";

/// A row of the result list.
pub const VIEWS_ROW: &'static str = "div[class~='views-row']";

/// The level field of a row.
pub const LEVEL_FIELD: &'static str = "span[class~='views-field-level']";

/// The terms field of a row.
pub const TERMS_FIELD: &'static str = "span[class~='views-field-terms']";

/// The content of a field.
pub const FIELD_CONTENT: &'static str = "span[class='field-content']";

/// The course title field of a row.
pub const TITLE_FIELD: &'static str = "div[class~='views-field-field-course-title-long']";

/// A link.
pub const LINK: &'static str = "a";

/// A paragraph.
pub const PARAGRAPH: &'static str = "p";

/// The attribute that holds a link's target.
pub const HREF: &'static str = "href";

/// The title of a course page.
pub const PAGE_TITLE: &'static str = "h1[id='page-title']";

/// The catalogue entry of a course page.
pub const CATALOG_NODE: &'static str = "div[class='node node-catalog clearfix']";

/// The department part of a course page.
pub const META: &'static str = "div[class='meta']";

/// The description part of a course page.
pub const CONTENT: &'static str = "div[class='content']";

/// The instructors paragraph of a course page.
pub const INSTRUCTORS: &'static str = "p[class='catalog-instructors']";

/// The row at position `row` of a search page: the inner HTML of its level
/// and terms fields, and the target of its course link; or the first error
/// met reading them.
pub open spec fn row_of(t: Seq<char>, row: usize) -> Result<ListingRowView, Fault> {
    match single(t, row, LEVEL_FIELD@) {
        Err(f) => Err(f),
        Ok(level_field) => match single(t, level_field, FIELD_CONTENT@) {
            Err(f) => Err(f),
            Ok(level) => match single(t, row, TERMS_FIELD@) {
                Err(f) => Err(f),
                Ok(terms_field) => match single(t, terms_field, FIELD_CONTENT@) {
                    Err(f) => Err(f),
                    Ok(terms) => match single(t, row, TITLE_FIELD@) {
                        Err(f) => Err(f),
                        Ok(title_field) => match single(t, title_field, LINK@) {
                            Err(f) => Err(f),
                            Ok(link) => match attribute_value(t, link, HREF@) {
                                Err(f) => Err(f),
                                Ok(href) => Ok(
                                    ListingRowView {
                                        level: inner_html_at(t, level),
                                        terms: inner_html_at(t, terms),
                                        href,
                                    },
                                ),
                            },
                        },
                    },
                },
            },
        },
    }
}

/// The rows at the given positions, in order, or the first error met.
pub open spec fn rows_of(t: Seq<char>, rows: Seq<usize>) -> Result<Seq<ListingRowView>, Fault>
    decreases rows.len(),
{
    if rows.len() == 0 {
        Ok(Seq::empty())
    } else {
        match rows_of(t, rows.drop_last()) {
            Err(f) => Err(f),
            Ok(done) => match row_of(t, rows.last()) {
                Err(f) => Err(f),
                Ok(r) => Ok(done.push(r)),
            },
        }
    }
}

/// What the search page `t` holds: no result list, the rows of its result
/// list, or the first error met reading them.
pub open spec fn page_of(t: Seq<char>) -> Result<Option<Seq<ListingRowView>>, Fault> {
    match optional(t, root_of(t), VIEW_CONTENT@) {
        Err(f) => Err(f),
        Ok(None) => Ok(None),
        Ok(Some(content)) => match many(t, content, VIEWS_ROW@) {
            Err(f) => Err(f),
            Ok(rows) => match rows_of(t, rows) {
                Err(f) => Err(f),
                Ok(read) => Ok(Some(read)),
            },
        },
    }
}

/// What the course page `t` holds: its title, department paragraph and
/// link target, description paragraph and instructors paragraph, each as
/// HTML; or the first error met reading them.
pub open spec fn course_page_of(t: Seq<char>) -> Result<CoursePageView, Fault> {
    let root = root_of(t);
    match single(t, root, PAGE_TITLE@) {
        Err(f) => Err(f),
        Ok(title) => match single(t, root, CATALOG_NODE@) {
            Err(f) => Err(f),
            Ok(content) => match single(t, content, META@) {
                Err(f) => Err(f),
                Ok(meta) => match single(t, meta, PARAGRAPH@) {
                    Err(f) => Err(f),
                    Ok(department) => match single(t, department, LINK@) {
                        Err(f) => Err(f),
                        Ok(link) => match attribute_value(t, link, HREF@) {
                            Err(f) => Err(f),
                            Ok(href) => match single(t, content, CONTENT@) {
                                Err(f) => Err(f),
                                Ok(body) => match single(t, body, PARAGRAPH@) {
                                    Err(f) => Err(f),
                                    Ok(description) => match single(t, content, INSTRUCTORS@) {
                                        Err(f) => Err(f),
                                        Ok(instructors) => Ok(
                                            CoursePageView {
                                                title: inner_html_at(t, title),
                                                department: inner_html_at(t, department),
                                                department_href: href,
                                                description: inner_html_at(t, description),
                                                instructors: inner_html_at(t, instructors),
                                            },
                                        ),
                                    },
                                },
                            },
                        },
                    },
                },
            },
        },
    }
}

/// The space-separated pieces of `s`.
pub open spec fn words(s: Seq<char>) -> Seq<Seq<char>> {
    split(s, seq![' '])
}

/// Pieces joined with single spaces.
pub open spec fn unwords(parts: Seq<Seq<char>>) -> Seq<char> {
    join(parts, seq![' '])
}

/// The entry that a search-page row describes.
pub open spec fn entry_of(row: ListingRowView) -> EntryView {
    EntryView { url: BASE_URL@ + row.href, level: row.level, terms: split(row.terms, ", "@) }
}

/// Whether an entry is offered in some term: it lists no term "Not Offered".
pub open spec fn is_offered(e: EntryView) -> bool {
    !e.terms.contains("Not Offered"@)
}

/// The entries of the rows of a search page that are offered, in page order.
pub open spec fn listing(rows: Seq<ListingRowView>) -> Seq<EntryView>
    decreases rows.len(),
{
    if rows.len() == 0 {
        Seq::empty()
    } else {
        let e = entry_of(rows.last());
        if is_offered(e) {
            listing(rows.drop_last()).push(e)
        } else {
            listing(rows.drop_last())
        }
    }
}

/// The page title of a course page, without surrounding whitespace.
pub open spec fn full_title(p: CoursePageView) -> Seq<char> {
    trim(p.title)
}

/// The first two words of the page title: subject and code.
pub open spec fn full_code(p: CoursePageView) -> Seq<char> {
    unwords(take_up_to(words(full_title(p)), 2))
}

/// The subject: the first word of the full code.
pub open spec fn subject_of(p: CoursePageView) -> Seq<char> {
    unwords(take_up_to(words(full_code(p)), 1))
}

/// The code: what follows the first word of the full code.
pub open spec fn code_of(p: CoursePageView) -> Seq<char> {
    unwords(skip_up_to(words(full_code(p)), 1))
}

/// The course name: the page title after its first two words.
pub open spec fn title_of(p: CoursePageView) -> Seq<char> {
    unwords(skip_up_to(words(full_title(p)), 2))
}

/// The department: in the department paragraph, what stands before the
/// first `(` and after the first `:`, trimmed.
pub open spec fn department_of(p: CoursePageView) -> Seq<char> {
    trim(
        unwords(
            skip_up_to(split(unwords(take_up_to(split(p.department, seq!['(']), 1)), seq![':']), 1),
        ),
    )
}

/// The description: the trimmed description paragraph after its first `:`,
/// trimmed.
pub open spec fn description_of(p: CoursePageView) -> Seq<char> {
    trim(unwords(skip_up_to(split(trim(p.description), seq![':']), 1)))
}

/// The instructors: the trimmed instructors paragraph after its first word,
/// trimmed.
pub open spec fn instructors_of(p: CoursePageView) -> Seq<char> {
    trim(unwords(skip_up_to(words(trim(p.instructors)), 1)))
}

/// Law: the instructors are everything in the trimmed instructors paragraph
/// after its first space, trimmed; nothing where it has no space. Where the
/// first space is followed by a word, the paragraph is its first word, a
/// space and the instructors, so no word after the first is lost.
pub proof fn law_instructors(p: CoursePageView, k: int)
    ensures
        (forall|j: int| 0 <= j < trim(p.instructors).len() ==> trim(p.instructors)[j] != ' ')
            ==> instructors_of(p) == Seq::<char>::empty(),
        (0 <= k < trim(p.instructors).len() && trim(p.instructors)[k] == ' '
            && !trim(p.instructors).take(k).contains(' ')) ==> {
            &&& instructors_of(p) == trim(trim(p.instructors).skip(k + 1))
            &&& (k + 1 < trim(p.instructors).len() && !is_white_space(trim(p.instructors)[k + 1]))
                ==> trim(p.instructors) == trim(p.instructors).take(k) + seq![' '] + instructors_of(p)
        },
{
    let t = trim(p.instructors);
    let sp = seq![' '];
    if forall|j: int| 0 <= j < t.len() ==> t[j] != ' ' {
        assert(!t.contains(' '));
        lemma_split_from_free(t, ' ', Seq::empty());
        assert(Seq::<char>::empty() + t =~= t);
        assert(skip_up_to(words(t), 1) =~= Seq::<Seq<char>>::empty());
        assert(unwords(Seq::<Seq<char>>::empty()) == Seq::<char>::empty());
        assert(trim(Seq::<char>::empty()) =~= Seq::<char>::empty());
    }
    if 0 <= k < t.len() && t[k] == ' ' && !t.take(k).contains(' ') {
        let a = t.take(k);
        let rest = t.skip(k + 1);
        assert(t =~= a + sp + rest);
        lemma_split_append(a, ' ', rest);
        lemma_split_from_nonempty(rest, sp, Seq::empty());
        assert(skip_up_to(words(t), 1) =~= split(rest, sp));
        law_join_split(rest, sp);
        if k + 1 < t.len() && !is_white_space(t[k + 1]) {
            law_trim_ends(p.instructors);
            assert(rest.last() == t.last());
            assert(rest[0] == t[k + 1]);
            lemma_trim_fixed(rest);
        }
    }
}

/// The name a course's identifier is made from: its subject and code,
/// separated by a space, which the subject cannot hold.
pub open spec fn id_name(p: CoursePageView) -> Seq<char> {
    subject_of(p) + seq![' '] + code_of(p)
}

/// The course that a listing entry and its course page describe.
pub open spec fn course_of(e: EntryView, p: CoursePageView) -> CourseView {
    CourseView {
        id: uuid_v5_x500(id_name(p)),
        title: title_of(p),
        subject: subject_of(p),
        code: code_of(p),
        level: e.level,
        url: e.url,
        department: department_of(p),
        department_url: BASE_URL@ + p.department_href,
        terms: e.terms,
        description: description_of(p),
        instructors: instructors_of(p),
    }
}

/// Law: the first two words of a course page's title are the subject and
/// the code, and the rest is the course name: the title is their join with
/// single spaces, and neither subject nor code holds a space.
pub proof fn law_title_parts(p: CoursePageView)
    ensures
        !subject_of(p).contains(' '),
        !code_of(p).contains(' '),
        words(full_title(p)).len() >= 3 ==> full_title(p) == subject_of(p) + seq![' '] + code_of(p)
            + seq![' '] + title_of(p),
        words(full_title(p)).len() == 2 ==> full_title(p) == subject_of(p) + seq![' '] + code_of(p)
            && title_of(p).len() == 0,
        words(full_title(p)).len() == 1 ==> full_title(p) == subject_of(p) && code_of(p).len() == 0
            && title_of(p).len() == 0,
{
    let sp = seq![' '];
    let ft = full_title(p);
    let w = words(ft);
    lemma_split_from_nonempty(ft, sp, Seq::empty());
    law_split_pieces_free(ft, ' ');
    law_join_split(ft, sp);
    let t2 = take_up_to(w, 2);
    assert forall|i: int| 0 <= i < t2.len() implies !(#[trigger] t2[i]).contains(' ') by {
        assert(t2[i] == w[i]);
    }
    law_split_join(t2, ' ');
    assert(words(full_code(p)) == t2);
    assert(take_up_to(t2, 1) =~= seq![w[0]]);
    assert(subject_of(p) == w[0]);
    if w.len() >= 2 {
        assert(skip_up_to(t2, 1) =~= seq![w[1]]);
        assert(code_of(p) == w[1]);
    } else {
        assert(skip_up_to(t2, 1) =~= Seq::<Seq<char>>::empty());
        assert(code_of(p) =~= Seq::<char>::empty());
    }
    if w.len() >= 3 {
        let r1 = w.drop_first();
        assert(w =~= seq![w[0]] + r1);
        lemma_join_prepend(w[0], r1, sp);
        assert(r1 =~= seq![w[1]] + w.skip(2));
        lemma_join_prepend(w[1], w.skip(2), sp);
        assert(skip_up_to(w, 2) == w.skip(2));
        assert(ft =~= subject_of(p) + sp + code_of(p) + sp + title_of(p));
    } else if w.len() == 2 {
        let r1 = w.drop_first();
        assert(w =~= seq![w[0]] + r1);
        lemma_join_prepend(w[0], r1, sp);
        assert(join(r1, sp) == w[1]);
        assert(skip_up_to(w, 2) =~= Seq::<Seq<char>>::empty());
        assert(title_of(p) =~= Seq::<char>::empty());
    } else {
        assert(skip_up_to(w, 2) =~= Seq::<Seq<char>>::empty());
        assert(title_of(p) =~= Seq::<char>::empty());
    }
}

/// Law: every entry that a search page yields is offered, links into the
/// catalogue's site, and comes from a row of the page; rows keep their
/// order, and an offered row is never dropped.
pub proof fn law_listing(rows: Seq<ListingRowView>)
    ensures
        listing(rows).len() <= rows.len(),
        forall|i: int|
            0 <= i < listing(rows).len() ==> is_offered(#[trigger] listing(rows)[i])
                && listing(rows)[i].url.take(BASE_URL@.len() as int) == BASE_URL@,
        (forall|i: int| 0 <= i < rows.len() ==> is_offered(entry_of(#[trigger] rows[i])))
            ==> listing(rows) == rows.map_values(|r: ListingRowView| entry_of(r)),
    decreases rows.len(),
{
    if rows.len() > 0 {
        let init = rows.drop_last();
        law_listing(init);
        let e = entry_of(rows.last());
        assert(e.url.take(BASE_URL@.len() as int) =~= BASE_URL@);
        if forall|i: int| 0 <= i < rows.len() ==> is_offered(entry_of(#[trigger] rows[i])) {
            assert forall|i: int| 0 <= i < init.len() implies is_offered(
                entry_of(#[trigger] init[i]),
            ) by {
                assert(init[i] == rows[i]);
            }
            assert(is_offered(entry_of(rows[rows.len() - 1])));
            assert(rows.map_values(|r: ListingRowView| entry_of(r)) =~= init.map_values(
                |r: ListingRowView| entry_of(r),
            ).push(e));
        }
    } else {
        assert(rows.map_values(|r: ListingRowView| entry_of(r)) =~= Seq::<EntryView>::empty());
    }
}

/// A row whose terms are exactly "Not Offered" describes an entry that is
/// not offered.
pub proof fn lemma_not_offered_row(r: ListingRowView)
    requires
        r.terms == "Not Offered"@,
    ensures
        !is_offered(entry_of(r)),
{
    reveal_strlit("Not Offered");
    reveal_strlit(", ");
    let t = "Not Offered"@;
    let sep = ", "@;
    assert(sep[0] == ',');
    assert forall|j: int| 0 <= j < t.len() implies t[j] != ',' by {}
    assert(!t.contains(',')) by {
        if t.contains(',') {
            let j = choose|j: int| 0 <= j < t.len() && t[j] == ',';
        }
    }
    lemma_split_from_unseparated(t, sep, Seq::empty());
    assert(Seq::<char>::empty() + t =~= t);
    assert(entry_of(r).terms[0] == t);
}

/// Law: a row that is not offered, put anywhere among a search page's rows,
/// changes nothing of what the page yields.
pub proof fn law_unoffered_row_ignored(rows: Seq<ListingRowView>, k: int, r: ListingRowView)
    requires
        0 <= k <= rows.len(),
        !is_offered(entry_of(r)),
    ensures
        listing(rows.insert(k, r)) == listing(rows),
    decreases rows.len(),
{
    let with = rows.insert(k, r);
    if k == rows.len() {
        assert(with.drop_last() =~= rows);
        assert(with.last() == r);
    } else {
        law_unoffered_row_ignored(rows.drop_last(), k, r);
        assert(with.drop_last() =~= rows.drop_last().insert(k, r));
        assert(with.last() == rows.last());
    }
}

/// Law: a row whose terms are exactly "Not Offered", put anywhere among a
/// search page's rows, changes nothing of what the page yields.
pub proof fn law_not_offered_row_ignored(rows: Seq<ListingRowView>, k: int, r: ListingRowView)
    requires
        0 <= k <= rows.len(),
        r.terms == "Not Offered"@,
    ensures
        listing(rows.insert(k, r)) == listing(rows),
{
    lemma_not_offered_row(r);
    law_unoffered_row_ignored(rows, k, r);
}

/// What a search page's text yields: nothing where it has no listing, the
/// entries offered among its rows, or the fault met in reading it.
pub open spec fn page_result(t: Seq<char>) -> Result<Option<Seq<EntryView>>, Fault> {
    match page_of(t) {
        Err(f) => Err(f),
        Ok(None) => Ok(None),
        Ok(Some(rows)) => Ok(Some(listing(rows))),
    }
}

/// Law: of two search pages whose rows differ only by one row with terms
/// exactly "Not Offered", wherever it stands, each yields what the other
/// does.
pub proof fn law_not_offered_page(
    page: Seq<char>,
    with_row: Seq<char>,
    rows: Seq<ListingRowView>,
    k: int,
    r: ListingRowView,
)
    requires
        0 <= k <= rows.len(),
        r.terms == "Not Offered"@,
        page_of(page) == Ok::<Option<Seq<ListingRowView>>, Fault>(Some(rows)),
        page_of(with_row) == Ok::<Option<Seq<ListingRowView>>, Fault>(Some(rows.insert(k, r))),
    ensures
        page_result(with_row) == page_result(page),
{
    law_not_offered_row_ignored(rows, k, r);
}

/// Law: a search page yields nothing exactly where it has no result list;
/// a page with a result list whose rows all read yields its entries, even
/// when none of them is offered.
pub proof fn law_page_without_results(t: Seq<char>)
    ensures
        page_of(t) == Ok::<Option<Seq<ListingRowView>>, Fault>(None) <==> optional(t, root_of(t), VIEW_CONTENT@)
            == Ok::<Option<usize>, Fault>(None),
        (optional(t, root_of(t), VIEW_CONTENT@) matches Ok(Some(_))) && page_of(t) is Ok
            ==> page_of(t) matches Ok(Some(_)),
{
}

/// Law: a course keeps the level, link and terms of the entry it was read
/// from, links its department into the catalogue's site, and is identified
/// by its subject and code alone.
pub proof fn law_course_from_entry(e: EntryView, p: CoursePageView, q: CoursePageView)
    ensures
        course_of(e, p).level == e.level,
        course_of(e, p).url == e.url,
        course_of(e, p).terms == e.terms,
        course_of(e, p).department_url.take(BASE_URL@.len() as int) == BASE_URL@,
        subject_of(p) == subject_of(q) && code_of(p) == code_of(q) ==> course_of(e, p).id
            == course_of(e, q).id,
{
    assert(course_of(e, p).department_url.take(BASE_URL@.len() as int) =~= BASE_URL@);
}

/// Law: a course's identifier is made from a name that determines the
/// subject and the code: two pages give the same name exactly when they
/// give the same subject and the same code.
pub proof fn law_id_name(p: CoursePageView, q: CoursePageView)
    ensures
        id_name(p) == id_name(q) <==> (subject_of(p) == subject_of(q) && code_of(p) == code_of(q)),
{
    law_title_parts(p);
    law_title_parts(q);
    let a = subject_of(p);
    let b = subject_of(q);
    if id_name(p) == id_name(q) {
        let n = id_name(p);
        if a.len() < b.len() {
            assert(n[a.len() as int] == ' ');
            assert(id_name(q)[a.len() as int] == b[a.len() as int]);
        } else if b.len() < a.len() {
            assert(id_name(q)[b.len() as int] == ' ');
            assert(n[b.len() as int] == a[b.len() as int]);
        }
        assert(a =~= n.take(a.len() as int));
        assert(b =~= id_name(q).take(b.len() as int));
        assert(code_of(p) =~= n.skip(a.len() as int + 1));
        assert(code_of(q) =~= id_name(q).skip(b.len() as int + 1));
    }
}

/// Once some prefix of the rows fails to read, reading them all fails with
/// the same error.
proof fn lemma_rows_of_error(t: Seq<char>, rows: Seq<usize>, n: int)
    requires
        0 <= n <= rows.len(),
        rows_of(t, rows.take(n)) is Err,
    ensures
        rows_of(t, rows) == rows_of(t, rows.take(n)),
    decreases rows.len() - n,
{
    if n < rows.len() {
        assert(rows.take(n + 1).drop_last() =~= rows.take(n));
        lemma_rows_of_error(t, rows, n + 1);
        assert(rows_of(t, rows.take(n + 1)) == rows_of(t, rows.take(n)));
    } else {
        assert(rows.take(n) =~= rows);
    }
}

/// Reads the catalogue's search and course pages.
pub struct Extractor;

impl Extractor {
    /// The entry that a search-page row describes: its level as given, its
    /// terms split at `", "`, and its link made absolute.
    pub fn entry_from_row(row: &ListingRow) -> (res: Entry)
        ensures
            res@ == entry_of(row@),
    {
        proof {
            reveal_strlit(", ");
        }
        let terms = split_str(row.terms.as_str(), ", ");
        Entry {
            url: concat(BASE_URL, row.href.as_str()),
            level: row.level.clone(),
            terms: to_owned_all(&terms),
        }
    }

    /// Whether the entry lists no term "Not Offered".
    pub fn offered(entry: &Entry) -> (res: bool)
        ensures
            res == is_offered(entry@),
    {
        let not_offered = String::from_str("Not Offered");
        let mut i: usize = 0;
        while i < entry.terms.len()
            invariant
                i <= entry.terms@.len(),
                not_offered@ == "Not Offered"@,
                forall|j: int| 0 <= j < i ==> entry@.terms[j] != "Not Offered"@,
            decreases entry.terms@.len() - i,
        {
            if entry.terms[i] == not_offered {
                assert(entry@.terms[i as int] == "Not Offered"@);
                return false;
            }
            i = i + 1;
        }
        proof {
            if entry@.terms.contains("Not Offered"@) {
                let j = choose|j: int|
                    0 <= j < entry@.terms.len() && entry@.terms[j] == "Not Offered"@;
                assert(entry@.terms[j] != "Not Offered"@);
            }
        }
        true
    }

    /// The offered entries of a search page's rows, in page order.
    pub fn entries(rows: &Vec<ListingRow>) -> (res: Vec<Entry>)
        ensures
            entries_view(res@) == listing(rows@.map_values(|r: ListingRow| r@)),
    {
        let ghost views = rows@.map_values(|r: ListingRow| r@);
        let mut out: Vec<Entry> = Vec::new();
        let mut i: usize = 0;
        while i < rows.len()
            invariant
                i <= rows@.len(),
                views == rows@.map_values(|r: ListingRow| r@),
                entries_view(out@) == listing(views.take(i as int)),
            decreases rows@.len() - i,
        {
            let entry = Self::entry_from_row(&rows[i]);
            let ghost before = out@;
            assert(views.take(i + 1).drop_last() =~= views.take(i as int));
            assert(views.take(i + 1).last() == rows@[i as int]@);
            if Self::offered(&entry) {
                out.push(entry);
                assert(entries_view(out@) =~= entries_view(before).push(entry@));
            }
            i = i + 1;
        }
        assert(views.take(i as int) =~= views);
        out
    }

    /// The course that a listing entry and its course page describe; level,
    /// link and terms come from the entry, the rest from the page.
    pub fn course_from_page(entry: Entry, page: &CoursePage) -> (res: Course)
        ensures
            res@ == course_of(entry@, page@),
            res@.id.len() == 32,
            forall|i: int| 0 <= i < 32 ==> is_hex_digit(#[trigger] res@.id[i]),
    {
        let ghost p = page@;
        proof {
            reveal_strlit(" ");
            reveal_strlit("(");
            reveal_strlit(":");
            assert(" "@ =~= seq![' ']);
            assert("("@ =~= seq!['(']);
            assert(":"@ =~= seq![':']);
        }
        let heading = trim_str(page.title.as_str());
        let title_words = split_str(heading, " ");
        let n = title_words.len();
        let code_text = join_range(&title_words, 0, if n < 2 { n } else { 2 }, " ");
        proof {
            assert(strs_view(title_words@).subrange(0, if n < 2 { n as int } else { 2 })
                =~= take_up_to(words(full_title(p)), 2));
        }
        let code_words = split_str(code_text.as_str(), " ");
        let m = code_words.len();
        let subject = join_range(&code_words, 0, if m < 1 { m } else { 1 }, " ");
        let code = join_range(&code_words, if m < 1 { m } else { 1 }, m, " ");
        let title = join_range(&title_words, if n < 2 { n } else { 2 }, n, " ");
        proof {
            assert(strs_view(code_words@).subrange(0, if m < 1 { m as int } else { 1 })
                =~= take_up_to(words(full_code(p)), 1));
            assert(strs_view(code_words@).subrange(if m < 1 { m as int } else { 1 }, m as int)
                =~= skip_up_to(words(full_code(p)), 1));
            assert(strs_view(title_words@).subrange(if n < 2 { n as int } else { 2 }, n as int)
                =~= skip_up_to(words(full_title(p)), 2));
        }
        let mut name = concat(subject.as_str(), " ");
        name.append(code.as_str());
        let id = uuid_v5_text(name.as_str());

        let department_parts = split_str(page.department.as_str(), "(");
        let k = department_parts.len();
        let before_paren = join_range(&department_parts, 0, if k < 1 { k } else { 1 }, " ");
        let after_colon = split_str(before_paren.as_str(), ":");
        let a = after_colon.len();
        let department_text = join_range(&after_colon, if a < 1 { a } else { 1 }, a, " ");
        let department = String::from_str(trim_str(department_text.as_str()));
        proof {
            assert(strs_view(department_parts@).subrange(0, if k < 1 { k as int } else { 1 })
                =~= take_up_to(split(p.department, seq!['(']), 1));
            assert(strs_view(after_colon@).subrange(if a < 1 { a as int } else { 1 }, a as int)
                =~= skip_up_to(split(before_paren@, seq![':']), 1));
        }

        let description_parts = split_str(trim_str(page.description.as_str()), ":");
        let d = description_parts.len();
        let description_text = join_range(&description_parts, if d < 1 { d } else { 1 }, d, " ");
        let description = String::from_str(trim_str(description_text.as_str()));
        proof {
            assert(strs_view(description_parts@).subrange(if d < 1 { d as int } else { 1 }, d as int)
                =~= skip_up_to(split(trim(p.description), seq![':']), 1));
        }

        let instructor_words = split_str(trim_str(page.instructors.as_str()), " ");
        let w = instructor_words.len();
        let instructors_text = join_range(&instructor_words, if w < 1 { w } else { 1 }, w, " ");
        let instructors = String::from_str(trim_str(instructors_text.as_str()));
        proof {
            assert(strs_view(instructor_words@).subrange(if w < 1 { w as int } else { 1 }, w as int)
                =~= skip_up_to(words(trim(p.instructors)), 1));
        }

        Course {
            id,
            title,
            subject,
            code,
            level: entry.level,
            url: entry.url,
            department,
            department_url: concat(BASE_URL, page.department_href.as_str()),
            terms: entry.terms,
            description,
            instructors,
        }
    }

    /// The row at position `row` of a search page, as [`row_of`] reads it.
    pub fn read_row(doc: &Document, row: usize) -> (res: Result<ListingRow, ExtractError>)
        requires
            element_at(doc@, row),
        ensures
            res matches Ok(r) ==> row_of(doc@, row) == Ok::<ListingRowView, Fault>(r@),
            res matches Err(e) ==> row_of(doc@, row) == Err::<ListingRowView, Fault>(e@),
    {
        let level_field = select_single(doc, row, LEVEL_FIELD)?;
        let level_node = select_single(doc, level_field, FIELD_CONTENT)?;
        let terms_field = select_single(doc, row, TERMS_FIELD)?;
        let terms_node = select_single(doc, terms_field, FIELD_CONTENT)?;
        let title_field = select_single(doc, row, TITLE_FIELD)?;
        let link = select_single(doc, title_field, LINK)?;
        let href = attribute(doc, link, HREF)?;
        let level = doc.inner_html(level_node);
        let terms = doc.inner_html(terms_node);
        Ok(ListingRow { level, terms, href })
    }

    /// The offered entries of a search page, in page order, or `None` when
    /// the page has no result list; or the first error met reading its rows.
    ///
    /// The rows are those that [`page_of`] reads, and the entries those of
    /// [`Extractor::entries`] on them.
    pub fn extract_page(html: &str) -> (res: Result<Option<Vec<Entry>>, ExtractError>)
        ensures
            page_of(html@) matches Ok(None) ==> res matches Ok(None),
            page_of(html@) matches Ok(Some(rows)) ==> (res matches Ok(Some(es)) && entries_view(
                es@,
            ) == listing(rows)),
            page_of(html@) matches Err(f) ==> (res matches Err(e) && e@ == f),
            res matches Ok(None) <==> optional(html@, root_of(html@), VIEW_CONTENT@) == Ok::<
                Option<usize>,
                Fault,
            >(None),
            page_result(html@) == (match res {
                Ok(Some(es)) => Ok(Some(entries_view(es@))),
                Ok(None) => Ok(None),
                Err(e) => Err(e@),
            }),
    {
        let doc = Document::parse(html);
        let root = doc.root();
        let content = match select_optional(&doc, root, VIEW_CONTENT)? {
            Some(content) => content,
            None => return Ok(None),
        };
        let found = select_many(&doc, content, VIEWS_ROW)?;
        let ghost t = doc@;
        let mut rows: Vec<ListingRow> = Vec::new();
        let mut i: usize = 0;
        proof {
            assert(found@.take(0) =~= Seq::<usize>::empty());
            assert(rows@.map_values(|r: ListingRow| r@) =~= Seq::<ListingRowView>::empty());
        }
        while i < found.len()
            invariant
                t == doc@,
                t == html@,
                i <= found@.len(),
                optional(t, root_of(t), VIEW_CONTENT@) == Ok::<Option<usize>, Fault>(Some(content)),
                many(t, content, VIEWS_ROW@) == Ok::<Seq<usize>, Fault>(found@),
                forall|j: int| 0 <= j < found@.len() ==> element_at(t, #[trigger] found@[j]),
                rows_of(t, found@.take(i as int)) == Ok::<Seq<ListingRowView>, Fault>(
                    rows@.map_values(|r: ListingRow| r@),
                ),
            decreases found@.len() - i,
        {
            assert(found@.take(i + 1).drop_last() =~= found@.take(i as int));
            assert(found@.take(i + 1).last() == found@[i as int]);
            match Self::read_row(&doc, found[i]) {
                Ok(row) => {
                    let ghost before = rows@.map_values(|r: ListingRow| r@);
                    rows.push(row);
                    assert(rows@.map_values(|r: ListingRow| r@) =~= before.push(row@));
                },
                Err(e) => {
                    proof {
                        lemma_rows_of_error(t, found@, i as int + 1);
                    }
                    return Err(e);
                },
            }
            i = i + 1;
        }
        assert(found@.take(i as int) =~= found@);
        let entries = Self::entries(&rows);
        Ok(Some(entries))
    }

    /// What a course page holds, as [`course_page_of`] reads it.
    pub fn read_course_page(doc: &Document) -> (res: Result<CoursePage, ExtractError>)
        ensures
            res matches Ok(p) ==> course_page_of(doc@) == Ok::<CoursePageView, Fault>(p@),
            res matches Err(e) ==> course_page_of(doc@) == Err::<CoursePageView, Fault>(e@),
    {
        let root = doc.root();
        let title = select_single(doc, root, PAGE_TITLE)?;
        let content = select_single(doc, root, CATALOG_NODE)?;
        let meta = select_single(doc, content, META)?;
        let department = select_single(doc, meta, PARAGRAPH)?;
        let link = select_single(doc, department, LINK)?;
        let department_href = attribute(doc, link, HREF)?;
        let body = select_single(doc, content, CONTENT)?;
        let description = select_single(doc, body, PARAGRAPH)?;
        let instructors = select_single(doc, content, INSTRUCTORS)?;
        Ok(
            CoursePage {
                title: doc.inner_html(title),
                department: doc.inner_html(department),
                department_href,
                description: doc.inner_html(description),
                instructors: doc.inner_html(instructors),
            },
        )
    }

    /// The course that a listing entry and the HTML of its course page
    /// describe: that of [`Extractor::course_from_page`] on what the page
    /// holds; or the first error met reading the page.
    pub fn extract_course(entry: Entry, html: &str) -> (res: Result<Course, ExtractError>)
        ensures
            course_page_of(html@) matches Ok(p) ==> (res matches Ok(c) && c@ == course_of(
                entry@,
                p,
            )),
            res matches Ok(c) ==> c@.id.len() == 32 && forall|i: int|
                0 <= i < 32 ==> is_hex_digit(#[trigger] c@.id[i]),
            course_page_of(html@) matches Err(f) ==> (res matches Err(e) && e@ == f),
    {
        let doc = Document::parse(html);
        let page = Self::read_course_page(&doc)?;
        Ok(Self::course_from_page(entry, &page))
    }
}

} // verus!
