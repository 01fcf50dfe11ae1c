use mcgill_wtf::catalog::Catalog;
use mcgill_wtf::cli::{is_remote, Arguments, Job, Loader, Server, Subcommand};
use mcgill_wtf::command::{
    build_arguments, create_index, key_of, plain_search, search, store_course, SpawnOptions,
};
use mcgill_wtf::model::Course;

fn course(id: &str, title: &str) -> Course {
    Course {
        id: id.into(),
        title: title.into(),
        subject: "COMP".into(),
        code: "250".into(),
        level: "Undergraduate".into(),
        url: "u".into(),
        department: "d".into(),
        department_url: "du".into(),
        terms: vec!["Fall 2022".into()],
        description: "desc".into(),
        instructors: "i".into(),
    }
}

#[test]
fn arguments_split_on_spaces_and_drop_empty_words() {
    assert_eq!(build_arguments("  a  b\tc  "), vec!["a", "b\tc"]);
    assert_eq!(build_arguments("x \n y"), vec!["x", "", "y"]);
    assert!(build_arguments("   ").is_empty());
}

#[test]
fn index_creation_command() {
    let create = create_index();
    assert_eq!(create.program, "FT.CREATE");
    assert_eq!(
        create.arguments,
        vec![
            "courses", "ON", "JSON", "PREFIX", "1", "course:", "NOOFFSETS", "SCHEMA", "$.title",
            "AS", "title", "TEXT", "WEIGHT", "2", "$.description", "AS", "description", "TEXT",
            "$.subject", "AS", "subject", "TEXT", "NOSTEM", "WEIGHT", "2", "$.code", "AS", "code",
            "TEXT", "NOSTEM", "WEIGHT", "2", "$.level", "AS", "level", "TAG"
        ]
    );
}

#[test]
fn search_keeps_the_query_one_word() {
    let query = search("intro to  programming");
    assert_eq!(query.program, "FT.SEARCH");
    assert_eq!(
        query.arguments,
        vec!["courses", "'intro\\to\\\\programming'", "RETURN", "0", "LIMIT", "0", "100"]
    );
    assert_eq!(search("").arguments[1], "''");
}

#[test]
fn store_command() {
    let store = store_course("42", "{}".to_string());
    assert_eq!(store.program, "JSON.SET");
    assert_eq!(store.arguments, vec!["course:42", "$", "{}"]);
    assert_eq!(key_of("abc"), "course:abc");
}

#[test]
fn spawn_commands_local_and_server() {
    let local = SpawnOptions { local: true, port: 7501 };
    let commands = local.commands();
    assert_eq!(commands.len(), 2);
    assert_eq!(commands[0].program, "docker");
    assert_eq!(commands[0].arguments, vec!["kill", "mcgill.wtf-redis"]);
    assert_eq!(
        commands[1].arguments,
        vec![
            "run", "--name", "mcgill.wtf-redis", "-d", "--rm", "-p", "7501:6379",
            "redis/redis-stack-server:latest", "redis-stack-server", "--save", ""
        ]
    );
    assert_eq!(local.address(), "redis://localhost:7501");
    let server = SpawnOptions { local: false, port: 80 };
    let commands = server.commands();
    assert_eq!(commands.len(), 1);
    assert_eq!(commands[0].program, "redis-server");
    assert_eq!(
        commands[0].arguments,
        vec![
            "--loadmodule", "/opt/redis-stack/lib/redisearch.so", "--loadmodule",
            "/opt/redis-stack/lib/rejson.so", "--port", "80", "--save", ""
        ]
    );
}

#[test]
fn catalog_reads_back_what_was_inserted() {
    let mut catalog = Catalog::new();
    catalog.insert(course("1", "first"));
    catalog.insert(course("2", "second"));
    catalog.insert(course("1", "replaced"));
    assert_eq!(catalog.len(), 2);
    assert_eq!(catalog.get("course:1").unwrap().title, "replaced");
    assert_eq!(catalog.get("course:2").unwrap().title, "second");
    assert!(catalog.get("1").is_none());
    let keys = vec!["course:2".to_string(), "course:1".to_string()];
    let found = catalog.resolve(&keys).unwrap();
    assert_eq!(found[0].title, "second");
    assert_eq!(found[1].title, "replaced");
    let missing = vec!["course:2".to_string(), "course:9".to_string(), "course:8".to_string()];
    assert_eq!(catalog.resolve(&missing).unwrap_err(), "course:9");
}

#[test]
fn command_line_defaults() {
    let job = Arguments {
        subcommand: Subcommand::Download(Loader { datasource: None, starting_page: None }),
    }
    .run();
    match job {
        Job::Download(mut download) => {
            assert_eq!(download.output, "data.json");
            let page = download.request();
            assert_eq!(page.number, 0);
            assert_eq!(page.url, "https://www.mcgill.ca/study/2022-2023/courses/search?page=0");
            assert!(download.receive(Some(vec![course("1", "a")])));
            assert!(download.receive(Some(vec![course("2", "b"), course("3", "c")])));
            assert_eq!(download.page, 2);
            assert_eq!(download.courses.len(), 3);
            assert_eq!(download.courses[2].id, "3");
            assert_eq!(
                download.request().url,
                "https://www.mcgill.ca/study/2022-2023/courses/search?page=2"
            );
            assert!(!download.receive(None));
            assert_eq!(download.page, 2);
            assert_eq!(download.courses.len(), 3);
        }
        Job::Serve(_) => panic!("expected a download"),
    }
    let job = Subcommand::Download(Loader {
        datasource: Some("out.json".into()),
        starting_page: Some(12),
    })
    .run();
    match job {
        Job::Download(download) => {
            assert_eq!(download.output, "out.json");
            assert_eq!(download.page, 12);
        }
        Job::Serve(_) => panic!("expected a download"),
    }
    match Subcommand::Serve(Server { datasource: "d.json".into(), port: None }).run() {
        Job::Serve(serve) => {
            assert_eq!(serve.port, 7500);
            assert_eq!(serve.datasource, "d.json");
        }
        Job::Download(_) => panic!("expected a server"),
    }
    match Subcommand::Serve(Server { datasource: "d".into(), port: Some(1) }).run() {
        Job::Serve(serve) => assert_eq!(serve.port, 1),
        Job::Download(_) => panic!("expected a server"),
    }
}

#[test]
fn remote_datasources() {
    assert!(is_remote("https://example.com/data.json"));
    assert!(is_remote("http"));
    assert!(!is_remote("htt"));
    assert!(!is_remote("data.json"));
    assert!(!is_remote("./http"));
}

#[test]
fn plain_search_splits_the_query() {
    let query = plain_search("intro to");
    assert_eq!(query.program, "FT.SEARCH");
    assert_eq!(
        query.arguments,
        vec!["courses", "'intro", "to'", "RETURN", "0", "LIMIT", "0", "100"]
    );
}
