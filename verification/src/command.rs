//! The commands sent to the search engine: the index schema, the storing
//! of a course and a full-text query; and the commands that start it.

use vstd::prelude::*;

use crate::number::{decimal, decimal_text};
use crate::text::{
    is_white_space, law_split_pieces_free, lemma_join_free, lemma_split_append,
    lemma_split_from_free, lemma_trim_fixed, law_split_join_replaces, concat, join, join_range, split, split_str, strs_view, to_owned_all, trim, trim_str,
};

verus! {

/// A command and its arguments, each passed as one word.
pub struct Invocation {
    pub program: String,
    pub arguments: Vec<String>,
}

/// The value of an [`Invocation`].
pub struct InvocationView {
    pub program: Seq<char>,
    pub arguments: Seq<Seq<char>>,
}

impl View for Invocation {
    type V = InvocationView;

    open spec fn view(&self) -> InvocationView {
        InvocationView { program: self.program@, arguments: self.arguments.deep_view() }
    }
}

/// The non-empty pieces, each trimmed, in order.
pub open spec fn kept(parts: Seq<Seq<char>>) -> Seq<Seq<char>>
    decreases parts.len(),
{
    if parts.len() == 0 {
        Seq::empty()
    } else if parts.last().len() > 0 {
        kept(parts.drop_last()).push(trim(parts.last()))
    } else {
        kept(parts.drop_last())
    }
}

/// The argument words of a command line: the trimmed text split at single
/// spaces, empty pieces dropped and each remaining piece trimmed.
pub open spec fn arguments(text: Seq<char>) -> Seq<Seq<char>> {
    kept(split(trim(text), seq![' ']))
}

/// The argument words of a command line, as [`arguments`] gives them.
pub fn build_arguments(text: &str) -> (res: Vec<String>)
    ensures
        res.deep_view() == arguments(text@),
{
    proof {
        reveal_strlit(" ");
        assert(" "@ =~= seq![' ']);
    }
    let parts = split_str(trim_str(text), " ");
    let ghost pv = strs_view(parts@);
    let mut out: Vec<String> = Vec::new();
    let mut i: usize = 0;
    while i < parts.len()
        invariant
            i <= parts@.len(),
            pv == strs_view(parts@),
            out.deep_view() == kept(pv.take(i as int)),
        decreases parts@.len() - i,
    {
        let ghost before = out.deep_view();
        assert(pv.take(i + 1).drop_last() =~= pv.take(i as int));
        assert(pv.take(i + 1).last() == parts@[i as int]@);
        if !parts[i].is_empty() {
            out.push(String::from_str(trim_str(parts[i])));
            assert(out.deep_view() =~= before.push(trim(parts@[i as int]@)));
        }
        i = i + 1;
    }
    assert(pv.take(i as int) =~= pv);
    out
}

/// The full-text index over stored courses: title, description, subject,
/// code and level.
pub const INDEX_SCHEMA: &'static str = "
        courses ON JSON PREFIX 1 course: NOOFFSETS
        SCHEMA
        $.title AS title TEXT WEIGHT 2
        $.description AS description TEXT
        $.subject AS subject TEXT NOSTEM WEIGHT 2
        $.code AS code TEXT NOSTEM WEIGHT 2
        $.level AS level TAG
      ";

/// The command that creates the course index.
pub fn create_index() -> (res: Invocation)
    ensures
        res@.program == "FT.CREATE"@,
        res@.arguments == arguments(INDEX_SCHEMA@),
{
    Invocation { program: String::from_str("FT.CREATE"), arguments: build_arguments(INDEX_SCHEMA) }
}

/// The key under which a course is stored.
pub open spec fn course_key(id: Seq<char>) -> Seq<char> {
    "course:"@ + id
}

/// The key under which the course with identifier `id` is stored.
pub fn key_of(id: &str) -> (res: String)
    ensures
        res@ == course_key(id@),
{
    concat("course:", id)
}

/// The command that stores a course, given its identifier and its JSON text,
/// as the whole document at its key.
pub fn store_course(id: &str, json: String) -> (res: Invocation)
    ensures
        res@.program == "JSON.SET"@,
        res@.arguments == seq![course_key(id@), "$"@, json@],
{
    let mut arguments: Vec<String> = Vec::new();
    arguments.push(key_of(id));
    arguments.push(String::from_str("$"));
    arguments.push(json);
    assert(arguments.deep_view() =~= seq![course_key(id@), "$"@, json@]);
    Invocation { program: String::from_str("JSON.SET"), arguments }
}

/// The query text with each space replaced by a backslash, so that it
/// stays one word.
pub open spec fn escape(query: Seq<char>) -> Seq<char> {
    join(split(query, seq![' ']), seq!['\\'])
}

/// Law: the escaped query is the query, character for character, with a
/// backslash wherever the query has a space.
pub proof fn law_escape(query: Seq<char>)
    ensures
        escape(query).len() == query.len(),
        forall|i: int|
            0 <= i < query.len() ==> #[trigger] escape(query)[i] == if query[i] == ' ' {
                '\\'
            } else {
                query[i]
            },
{
    law_split_join_replaces(query, ' ', '\\');
}

/// The command line of a full-text search for `query`: at most a hundred
/// matching keys, without their documents.
pub open spec fn search_line(query: Seq<char>) -> Seq<char> {
    "courses '"@ + escape(query) + "' RETURN 0 LIMIT 0 100"@
}

/// The full-text search for `query`.
pub fn search(query: &str) -> (res: Invocation)
    ensures
        res@.program == "FT.SEARCH"@,
        res@.arguments == arguments(search_line(query@)),
{
    proof {
        reveal_strlit(" ");
        reveal_strlit("\\");
        assert(" "@ =~= seq![' ']);
        assert("\\"@ =~= seq!['\\']);
    }
    let words = split_str(query, " ");
    let escaped = join_range(&words, 0, words.len(), "\\");
    assert(strs_view(words@).subrange(0, words@.len() as int) =~= split(query@, seq![' ']));
    let mut line = concat("courses '", escaped.as_str());
    line.append("' RETURN 0 LIMIT 0 100");
    Invocation { program: String::from_str("FT.SEARCH"), arguments: build_arguments(line.as_str()) }
}

proof fn lemma_kept_fixed(parts: Seq<Seq<char>>)
    requires
        forall|i: int|
            0 <= i < parts.len() ==> (#[trigger] parts[i]).len() > 0 && trim(parts[i]) == parts[i],
    ensures
        kept(parts) == parts,
    decreases parts.len(),
{
    if parts.len() > 0 {
        let init = parts.drop_last();
        assert forall|i: int|
            0 <= i < init.len() implies (#[trigger] init[i]).len() > 0 && trim(init[i])
            == init[i] by {
            assert(init[i] == parts[i]);
        }
        lemma_kept_fixed(init);
        assert(parts.last() == parts[parts.len() - 1]);
        assert(init.push(parts.last()) =~= parts);
    }
}

/// A text none of whose characters is a space holds no space.
proof fn lemma_no_space(w: Seq<char>)
    requires
        forall|j: int| 0 <= j < w.len() ==> w[j] != ' ',
    ensures
        !w.contains(' '),
{
}

/// Law: a search passes the query on as a single word between quotes,
/// whatever the query holds, followed by the fixed return and limit words.
pub proof fn law_search_words(query: Seq<char>)
    ensures
        arguments(search_line(query)) == seq![
            "courses"@,
            "'"@ + escape(query) + "'"@,
            "RETURN"@,
            "0"@,
            "LIMIT"@,
            "0"@,
            "100"@,
        ],
{
    reveal_strlit("courses '");
    reveal_strlit("' RETURN 0 LIMIT 0 100");
    reveal_strlit("courses");
    reveal_strlit("'");
    reveal_strlit("RETURN");
    reveal_strlit("0");
    reveal_strlit("LIMIT");
    reveal_strlit("100");
    let sp = seq![' '];
    let e = escape(query);
    law_split_pieces_free(query, ' ');
    lemma_join_free(split(query, sp), seq!['\\'], ' ');
    let c = seq!['c', 'o', 'u', 'r', 's', 'e', 's'];
    let q = seq!['\''] + e + seq!['\''];
    let r = seq!['R', 'E', 'T', 'U', 'R', 'N'];
    let z = seq!['0'];
    let l = seq!['L', 'I', 'M', 'I', 'T'];
    let h = seq!['1', '0', '0'];
    assert(c =~= "courses"@);
    assert(q =~= "'"@ + e + "'"@);
    assert(r =~= "RETURN"@);
    assert(z =~= "0"@);
    assert(l =~= "LIMIT"@);
    assert(h =~= "100"@);
    let line = search_line(query);
    let t7 = z + sp + h;
    let t6 = l + sp + t7;
    let t5 = z + sp + t6;
    let t4 = r + sp + t5;
    let t3 = q + sp + t4;
    assert(line =~= c + sp + t3);
    lemma_no_space(c);
    assert forall|j: int| 0 <= j < q.len() implies q[j] != ' ' by {
        if 0 < j < q.len() - 1 {
            assert(q[j] == e[j - 1]);
        }
    }
    lemma_no_space(q);
    lemma_no_space(r);
    lemma_no_space(z);
    lemma_no_space(l);
    lemma_no_space(h);
    lemma_split_from_free(h, ' ', Seq::empty());
    assert(Seq::<char>::empty() + h =~= h);
    assert(split(h, sp) =~= seq![h]);
    lemma_split_append(z, ' ', h);
    assert(split(t7, sp) =~= seq![z, h]);
    lemma_split_append(l, ' ', t7);
    assert(split(t6, sp) =~= seq![l, z, h]);
    lemma_split_append(z, ' ', t6);
    assert(split(t5, sp) =~= seq![z, l, z, h]);
    lemma_split_append(r, ' ', t5);
    assert(split(t4, sp) =~= seq![r, z, l, z, h]);
    lemma_split_append(q, ' ', t4);
    assert(split(t3, sp) =~= seq![q, r, z, l, z, h]);
    lemma_split_append(c, ' ', t3);
    let words = seq![c, q, r, z, l, z, h];
    assert(split(line, sp) =~= words);
    lemma_trim_fixed(line);
    lemma_trim_fixed(c);
    lemma_trim_fixed(q);
    lemma_trim_fixed(r);
    lemma_trim_fixed(z);
    lemma_trim_fixed(l);
    lemma_trim_fixed(h);
    lemma_kept_fixed(words);
}

/// The command line of a full-text search for `query` as given, spaces
/// and all, for at most a hundred matching keys without their documents.
pub open spec fn plain_search_line(query: Seq<char>) -> Seq<char> {
    "courses '"@ + query + "' RETURN 0 LIMIT 0 100"@
}

/// The full-text search for `query` as given: its spaces split it into
/// several words.
pub fn plain_search(query: &str) -> (res: Invocation)
    ensures
        res@.program == "FT.SEARCH"@,
        res@.arguments == arguments(plain_search_line(query@)),
{
    let mut line = concat("courses '", query);
    line.append("' RETURN 0 LIMIT 0 100");
    Invocation { program: String::from_str("FT.SEARCH"), arguments: build_arguments(line.as_str()) }
}

/// How to start the search engine: in a local container, or as a server
/// process with the search and JSON modules; and on which port.
pub struct SpawnOptions {
    pub local: bool,
    pub port: u16,
}

/// The commands that start the search engine, in order.
pub open spec fn spawn_commands(local: bool, port: u16) -> Seq<InvocationView> {
    if local {
        seq![
            InvocationView { program: "docker"@, arguments: seq!["kill"@, "mcgill.wtf-redis"@] },
            InvocationView {
                program: "docker"@,
                arguments: seq![
                    "run"@,
                    "--name"@,
                    "mcgill.wtf-redis"@,
                    "-d"@,
                    "--rm"@,
                    "-p"@,
                    decimal(port as nat) + ":6379"@,
                    "redis/redis-stack-server:latest"@,
                    "redis-stack-server"@,
                    "--save"@,
                    ""@,
                ],
            },
        ]
    } else {
        seq![
            InvocationView {
                program: "redis-server"@,
                arguments: seq![
                    "--loadmodule"@,
                    "/opt/redis-stack/lib/redisearch.so"@,
                    "--loadmodule"@,
                    "/opt/redis-stack/lib/rejson.so"@,
                    "--port"@,
                    decimal(port as nat),
                    "--save"@,
                    ""@,
                ],
            },
        ]
    }
}

/// Appends an owned copy of `word`.
fn push_word(words: &mut Vec<String>, word: &str)
    ensures
        final(words).deep_view() == old(words).deep_view().push(word@),
{
    let ghost before = words.deep_view();
    words.push(String::from_str(word));
    assert(words.deep_view() =~= before.push(word@));
}

impl SpawnOptions {
    /// The commands that start the search engine, in order.
    pub fn commands(&self) -> (res: Vec<Invocation>)
        ensures
            res@.map_values(|i: Invocation| i@) == spawn_commands(self.local, self.port),
    {
        let port = decimal_text(self.port as u64);
        let mut out: Vec<Invocation> = Vec::new();
        if self.local {
            let mut kill: Vec<String> = Vec::new();
            push_word(&mut kill, "kill");
            push_word(&mut kill, "mcgill.wtf-redis");
            assert(kill.deep_view() =~= seq!["kill"@, "mcgill.wtf-redis"@]);
            out.push(Invocation { program: String::from_str("docker"), arguments: kill });
            let mut run: Vec<String> = Vec::new();
            push_word(&mut run, "run");
            push_word(&mut run, "--name");
            push_word(&mut run, "mcgill.wtf-redis");
            push_word(&mut run, "-d");
            push_word(&mut run, "--rm");
            push_word(&mut run, "-p");
            let published = concat(port.as_str(), ":6379");
            push_word(&mut run, published.as_str());
            push_word(&mut run, "redis/redis-stack-server:latest");
            push_word(&mut run, "redis-stack-server");
            push_word(&mut run, "--save");
            push_word(&mut run, "");
            assert(run.deep_view() =~= spawn_commands(self.local, self.port)[1].arguments);
            out.push(Invocation { program: String::from_str("docker"), arguments: run });
        } else {
            let mut serve: Vec<String> = Vec::new();
            push_word(&mut serve, "--loadmodule");
            push_word(&mut serve, "/opt/redis-stack/lib/redisearch.so");
            push_word(&mut serve, "--loadmodule");
            push_word(&mut serve, "/opt/redis-stack/lib/rejson.so");
            push_word(&mut serve, "--port");
            push_word(&mut serve, port.as_str());
            push_word(&mut serve, "--save");
            push_word(&mut serve, "");
            assert(serve.deep_view() =~= spawn_commands(self.local, self.port)[0].arguments);
            out.push(Invocation { program: String::from_str("redis-server"), arguments: serve });
        }
        assert(out@.map_values(|i: Invocation| i@) =~= spawn_commands(self.local, self.port));
        out
    }

    /// Where the started search engine listens.
    pub fn address(&self) -> (res: String)
        ensures
            res@ == "redis://localhost:"@ + decimal(self.port as nat),
    {
        let port = decimal_text(self.port as u64);
        concat("redis://localhost:", port.as_str())
    }
}

} // verus!
