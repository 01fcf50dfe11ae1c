//! What the command line asks for, with its defaults filled in, and the
//! page-by-page course download it may start.

use vstd::prelude::*;

use crate::model::{courses_view, Course, CourseView, Page, BASE_URL};
use crate::number::{decimal, decimal_text, decimal_value, law_decimal};
use crate::text::{chars_of, concat};

verus! {

/// Download course data: where to write it (default `data.json`) and the
/// search page to start at (default the first, 0).
pub struct Loader {
    pub datasource: Option<String>,
    pub starting_page: Option<usize>,
}

/// Serve searches over a datasource, on a port (default 7500).
pub struct Server {
    pub datasource: String,
    pub port: Option<u16>,
}

/// What to do.
pub enum Subcommand {
    /// Extract and download course data
    Download(Loader),
    /// Spawn the backend server
    Serve(Server),
}

/// The whole command line.
pub struct Arguments {
    pub subcommand: Subcommand,
}

/// A server to run: the datasource to index and the port to listen on.
pub struct Serve {
    pub datasource: String,
    pub port: u16,
}

/// A download under way: the file to write, the next search page to read,
/// and the courses read so far, in page order.
pub struct Download {
    pub output: String,
    pub page: usize,
    pub courses: Vec<Course>,
}

/// The value of a [`Download`].
pub struct DownloadView {
    pub output: Seq<char>,
    pub page: nat,
    pub courses: Seq<CourseView>,
}

impl View for Download {
    type V = DownloadView;

    open spec fn view(&self) -> DownloadView {
        DownloadView {
            output: self.output@,
            page: self.page as nat,
            courses: courses_view(self.courses@),
        }
    }
}

/// The job that a command line asks for.
pub enum Job {
    Download(Download),
    Serve(Serve),
}

/// The address of search page `n`.
pub open spec fn page_url(n: nat) -> Seq<char> {
    BASE_URL@ + "/study/2022-2023/courses/search?page="@ + decimal(n)
}

/// The download that a loader starts.
pub open spec fn download_of(datasource: Option<Seq<char>>, starting_page: Option<usize>) -> DownloadView {
    DownloadView {
        output: match datasource {
            Some(d) => d,
            None => "data.json"@,
        },
        page: match starting_page {
            Some(p) => p as nat,
            None => 0,
        },
        courses: Seq::empty(),
    }
}

impl Loader {
    /// The download this loader asks for, before any page is read.
    pub fn start(self) -> (res: Download)
        ensures
            res@ == download_of(
                match self.datasource {
                    Some(d) => Some(d@),
                    None => None,
                },
                self.starting_page,
            ),
    {
        let output = match self.datasource {
            Some(d) => d,
            None => String::from_str("data.json"),
        };
        let page = match self.starting_page {
            Some(p) => p,
            None => 0,
        };
        let res = Download { output, page, courses: Vec::new() };
        assert(courses_view(res.courses@) =~= Seq::<CourseView>::empty());
        res
    }
}

impl Server {
    /// The server this command asks for.
    pub fn start(self) -> (res: Serve)
        ensures
            res.datasource@ == self.datasource@,
            res.port == match self.port {
                Some(p) => p,
                None => 7500u16,
            },
    {
        Serve {
            datasource: self.datasource,
            port: match self.port {
                Some(p) => p,
                None => 7500,
            },
        }
    }
}

impl Subcommand {
    /// The job this subcommand asks for.
    pub fn run(self) -> (res: Job)
        ensures
            self matches Subcommand::Download(l) ==> res matches Job::Download(d) && d@
                == download_of(
                match l.datasource {
                    Some(s) => Some(s@),
                    None => None,
                },
                l.starting_page,
            ),
            self matches Subcommand::Serve(s) ==> res matches Job::Serve(j) && j.datasource@
                == s.datasource@ && j.port == match s.port {
                Some(p) => p,
                None => 7500u16,
            },
    {
        match self {
            Subcommand::Download(loader) => Job::Download(loader.start()),
            Subcommand::Serve(server) => Job::Serve(server.start()),
        }
    }
}

impl Arguments {
    /// The job this command line asks for.
    pub fn run(self) -> (res: Job)
        ensures
            self.subcommand matches Subcommand::Download(l) ==> res matches Job::Download(d) && d@
                == download_of(
                match l.datasource {
                    Some(s) => Some(s@),
                    None => None,
                },
                l.starting_page,
            ),
            self.subcommand matches Subcommand::Serve(s) ==> res matches Job::Serve(j)
                && j.datasource@ == s.datasource@ && j.port == match s.port {
                Some(p) => p,
                None => 7500u16,
            },
    {
        self.subcommand.run()
    }
}

impl Download {
    /// The search page to read next.
    pub fn request(&self) -> (res: Page)
        ensures
            res.number == self.page,
            res.url@ == page_url(self.page as nat),
    {
        let mut url = concat(BASE_URL, "/study/2022-2023/courses/search?page=");
        let number = decimal_text(self.page as u64);
        url.append(number.as_str());
        Page { number: self.page, url }
    }

    /// Takes in what the page just read gave: its courses, or `None` when it
    /// had no result list. Courses are recorded and the download moves to
    /// the next page; `None` ends the download. The result says whether to
    /// go on.
    pub fn receive(&mut self, courses: Option<Vec<Course>>) -> (more: bool)
        requires
            courses is Some ==> old(self).page < usize::MAX,
        ensures
            more == courses is Some,
            final(self)@.output == old(self)@.output,
            courses is None ==> final(self)@ == old(self)@,
            courses matches Some(cs) ==> final(self)@.page == old(self)@.page + 1
                && final(self)@.courses == old(self)@.courses + courses_view(cs@),
    {
        match courses {
            Some(courses) => {
                let mut courses = courses;
                let ghost added = courses_view(courses@);
                let ghost before = courses_view(self.courses@);
                self.courses.append(&mut courses);
                assert(courses_view(self.courses@) =~= before + added);
                self.page = self.page + 1;
                true
            },
            None => false,
        }
    }
}

/// Whether a datasource names a web address rather than a file: it starts
/// with `http`.
pub open spec fn remote(datasource: Seq<char>) -> bool {
    datasource.len() >= 4 && datasource.take(4) == "http"@
}

/// Whether the datasource is to be fetched over the web rather than read
/// from a file.
pub fn is_remote(datasource: &str) -> (res: bool)
    ensures
        res == remote(datasource@),
{
    proof {
        reveal_strlit("http");
    }
    let cs = chars_of(datasource);
    if cs.len() < 4 {
        return false;
    }
    let res = cs[0] == 'h' && cs[1] == 't' && cs[2] == 't' && cs[3] == 'p';
    assert(res ==> datasource@.take(4) =~= "http"@);
    proof {
        if datasource@.take(4) == "http"@ {
            assert(datasource@.take(4)[0] == 'h');
            assert(datasource@.take(4)[1] == 't');
            assert(datasource@.take(4)[2] == 't');
            assert(datasource@.take(4)[3] == 'p');
        }
    }
    res
}


/// Law: the address of search page `n` is the catalogue's search address
/// followed by the whole decimal text of `n`, which reads back as `n`; so
/// different pages have different addresses.
pub proof fn law_page_url(n: nat, m: nat)
    ensures
        page_url(n).len() > "https://www.mcgill.ca/study/2022-2023/courses/search?page="@.len(),
        page_url(n).take("https://www.mcgill.ca/study/2022-2023/courses/search?page="@.len() as int)
            == "https://www.mcgill.ca/study/2022-2023/courses/search?page="@,
        forall|i: int|
            "https://www.mcgill.ca/study/2022-2023/courses/search?page="@.len() <= i < page_url(n).len()
                ==> '0' <= #[trigger] page_url(n)[i] <= '9',
        decimal_value(page_url(n).skip("https://www.mcgill.ca/study/2022-2023/courses/search?page="@.len() as int)) == n,
        page_url(n) == page_url(m) ==> n == m,
{
    reveal_strlit("https://www.mcgill.ca");
    reveal_strlit("/study/2022-2023/courses/search?page=");
    reveal_strlit("https://www.mcgill.ca/study/2022-2023/courses/search?page=");
    let prefix = "https://www.mcgill.ca/study/2022-2023/courses/search?page="@;
    assert(BASE_URL@ + "/study/2022-2023/courses/search?page="@ =~= prefix);
    let l = prefix.len() as int;
    law_decimal(n, m);
    assert(page_url(n).take(l) =~= prefix);
    assert(page_url(n).skip(l) =~= decimal(n));
    assert forall|i: int| l <= i < page_url(n).len() implies '0' <= #[trigger] page_url(n)[i] <= '9' by {
        assert(page_url(n)[i] == decimal(n)[i - l]);
    }
    if page_url(n) == page_url(m) {
        assert(page_url(m).skip(l) =~= decimal(m));
    }
}

/// Law: a datasource is fetched over the web exactly when its first four
/// characters are `h`, `t`, `t`, `p`.
pub proof fn law_remote(datasource: Seq<char>)
    ensures
        remote(datasource) <==> (datasource.len() >= 4 && datasource[0] == 'h' && datasource[1] == 't'
            && datasource[2] == 't' && datasource[3] == 'p'),
{
    reveal_strlit("http");
    if datasource.len() >= 4 {
        let t = datasource.take(4);
        if datasource[0] == 'h' && datasource[1] == 't' && datasource[2] == 't' && datasource[3] == 'p' {
            assert(t =~= "http"@);
        }
        if t == "http"@ {
            assert(t[0] == 'h' && t[1] == 't' && t[2] == 't' && t[3] == 'p');
        }
    }
}

} // verus!
