use zc::spark::{
    app_lines, cores_exec, memory_exec, page_is_readable, read_page, shown_workers, summarize, Entry, PageError, RawPage, Row,
};

const PAGE_PARTS: &[&str] = &[
    "<html><head><title>Spark Master</title></head><body>",
    "<div><div><div><h3><a href=\"/\"><span class=\"version\">3.5.0</span></a>",
    " Spark Master at spark://10.13.13.2:7077</h3></div></div></div>",
    "<table><tbody>",
    "<tr><td><a href=\"w1\">worker-1</a></td><td>10.0.0.1:1</td><td>ALIVE</td><td>8 (2 Used)</td><td>15.0 GiB (2.0 GiB Used)</td><td>r</td></tr>",
    "<tr><td><a href=\"w2\">worker-2</a></td><td>10.0.0.2:1</td><td> DEAD </td><td>4 (0 Used)</td><td>1024.0 MiB (0.0 B Used)</td><td>r</td></tr>",
    "<tr><td><a href=\"w3\">worker-3</a></td><td>10.0.0.3:1</td><td>ALIVE</td><td>4  (1 Used)</td><td>4.0 GiB (1.0 GiB Used)</td><td>r</td></tr>",
    "</tbody></table>",
    "<table><tbody>",
    "<tr><td>x</td><td><a href=\"a1\">app-1</a></td><td>4</td><td>2.0 GiB</td><td>r</td><td>today</td><td>alice</td><td>RUNNING</td><td>1 h</td></tr>",
    "<tr><td>x</td><td><a href=\"a2\">app-2</a></td><td>2</td><td>1.0 GiB</td><td>r</td><td>today</td><td>bob</td><td>WAITING</td><td>1 h</td></tr>",
    "</tbody></table>",
    "<table><tbody>",
    "<tr><td>x</td><td><a href=\"a0\">app-0</a></td><td>1</td><td>1.0 GiB</td><td>r</td><td>today</td><td>carol</td><td>FINISHED</td></tr>",
    "<tr><td>x</td><td><a href=\"a9\">app-9</a></td><td>1</td><td>1.0 GiB</td><td>r</td><td>today</td><td>dave</td><td>KILLED</td></tr>",
    "</tbody></table>",
    "</body></html>",
];

fn page_html() -> String {
    PAGE_PARTS.join("")
}

#[test]
fn page_tables_are_read() {
    let page = read_page(&page_html()).expect("page");
    assert_eq!(page.version, "3.5.0");
    assert!(page.title.contains("Spark Master at spark://10.13.13.2:7077"));
    assert_eq!(page.tables.len(), 3);
    assert_eq!(page.tables[0].len(), 3);
    assert_eq!(page.tables[0][0].cells[2], "ALIVE");
    assert_eq!(page.tables[0][0].link, Some("worker-1".to_string()));
    assert_eq!(page.tables[1][0].link, Some("app-1".to_string()));
    assert_eq!(page.tables[1][0].cells.len(), 9);
}

#[test]
fn page_without_title_is_refused() {
    assert_eq!(
        read_page("<html><body><p>nothing</p></body></html>"),
        Err(PageError::MissingTag("div".to_string()))
    );
    assert_eq!(
        read_page("<html><body><div><h3>Master at x</h3></div></body></html>"),
        Err(PageError::MissingTag("a".to_string()))
    );
    assert_eq!(
        read_page("<html><body><div><h3><a>x</a></h3></div></body></html>"),
        Err(PageError::MissingTag("span".to_string()))
    );
}

#[test]
fn summary_of_the_page() {
    let page = read_page(&page_html()).expect("page");
    let s = summarize(&page);
    assert_eq!(s.version, "3.5.0");
    assert_eq!(s.url, "spark://10.13.13.2:7077");
    assert_eq!(s.alive_workers, 2);
    assert_eq!(s.cores_total, 12);
    assert_eq!(s.cores_used, 3);
    assert_eq!(s.running, 1);
    assert_eq!(s.completed, 1);
    assert_eq!(s.memory.len(), 2);
    assert_eq!(s.memory[0], vec!["15.0", "GiB", "2.0", "GiB", "Used"]);
    assert_eq!(s.workers.len(), 3);
    assert_eq!(s.workers[1].info, vec!["DEAD"]);
    assert_eq!(
        shown_workers(&s.workers, true),
        vec![s.workers[0].name.clone(), s.workers[2].name.clone()]
    );
    assert_eq!(shown_workers(&s.workers, false).len(), 3);
    assert_eq!(
        app_lines(&s.apps),
        vec!["alice@app-1 allocated 4 cores, 2.0 GiB memory", "bob@app-2 allocated 2 cores, 1.0 GiB memory"]
    );
}

fn row(text: &str, link: Option<&str>, cells: &[&str]) -> Row {
    Row {
        text: text.to_string(),
        link: link.map(|l| l.to_string()),
        cells: cells.iter().map(|c| c.to_string()).collect(),
    }
}

#[test]
fn later_rows_replace_earlier_names() {
    let workers = vec![
        row("w", None, &["", "", "DEAD", "1 (0 Used)", "1 B (0 B Used)", ""]),
        row(" w ", None, &["", "", "ALIVE", "2 (1 Used)", "1 B (0 B Used)", ""]),
    ];
    let page = RawPage { title: "Master at u".to_string(), version: "v".to_string(), tables: vec![workers, vec![], vec![]] };
    let s = summarize(&page);
    assert_eq!(s.workers, vec![Entry { name: "w".to_string(), info: vec!["ALIVE".to_string()] }]);
    assert_eq!(s.alive_workers, 1);
    assert_eq!(s.cores_total, 2);
    assert_eq!(s.url, "u");
}

#[test]
fn cores_and_memory_cells() {
    assert_eq!(cores_exec("8 (2 Used)"), Some((8, 2)));
    assert_eq!(cores_exec("8"), None);
    assert_eq!(cores_exec("8 2"), None);
    assert_eq!(cores_exec("x (2 Used)"), None);
    assert_eq!(memory_exec("15.0 GiB (2.0 GiB Used)"), vec!["15.0", "GiB", "2.0", "GiB", "Used"]);
}

#[test]
fn readable_pages() {
    let page = read_page(&page_html()).expect("page");
    assert!(page_is_readable(&page));
    let no_url = RawPage { title: "Master".to_string(), version: "v".to_string(), tables: vec![vec![], vec![], vec![]] };
    assert!(!page_is_readable(&no_url));
    let two_tables = RawPage { title: "Master at u".to_string(), version: "v".to_string(), tables: vec![vec![], vec![]] };
    assert!(!page_is_readable(&two_tables));
    let bad_cores = vec![row("w", None, &["", "", "ALIVE", "many", "1 B (0 B Used)", ""])];
    let page = RawPage { title: "Master at u".to_string(), version: "v".to_string(), tables: vec![bad_cores, vec![], vec![]] };
    assert!(!page_is_readable(&page));
    let dead_is_fine = vec![row("w", None, &["", "", "DEAD", "many", "?", ""])];
    let page = RawPage { title: "Master at u".to_string(), version: "v".to_string(), tables: vec![dead_is_fine, vec![], vec![]] };
    assert!(page_is_readable(&page));
    let short_app = vec![row("a", Some("a"), &["", "", "1"])];
    let page = RawPage { title: "Master at u".to_string(), version: "v".to_string(), tables: vec![vec![], short_app, vec![]] };
    assert!(!page_is_readable(&page));
}

#[test]
fn lookups_start_at_the_node_itself() {
    // One `div` is enough: each of the three `div` lookups from it finds it again.
    let html = "<html><body><div><h3><a><span>3.5.0</span></a> Master at spark://m:7077</h3></div></body></html>";
    let page = read_page(html).expect("page");
    assert_eq!(page.version, "3.5.0");
    assert_eq!(page.title, "3.5.0 Master at spark://m:7077");
    assert!(page.tables.is_empty());
    assert_eq!(read_page("<p>x</p>").map(|p| p.version), Err(PageError::MissingTag("div".to_string())));
}
