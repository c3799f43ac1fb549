use lumin::drun::Drun;
use lumin::files::FileSearcher;
use lumin::module::{ModuleEnum, ModuleMessage};
use lumin::websearch::{dictionary_search_url, wikipedia_search_url, DictMeaning, SearchError,
    SearchResult, WikiPage};

#[test]
fn module_descriptions() {
    assert_eq!(ModuleEnum::AppSearch.description(), "Launch your installed apps");
    assert_eq!(
        ModuleEnum::WebSearch.description(),
        "Quick access to search different websites"
    );
    assert_eq!(ModuleEnum::FileSearch.description(), "file search");
    assert_eq!(ModuleEnum::HelpScreen.description(), "help");
    assert_eq!(ModuleEnum::Calculator.description(), "calc");
}

#[test]
fn drun_ranks_and_selects() {
    let mut d = Drun::new(vec![
        "terminal".to_string(),
        "firefox".to_string(),
        "files".to_string(),
    ]);
    d.update(&ModuleMessage::TextChanged("fire".to_string()));
    assert_eq!(d.selected_index, 0);
    assert_eq!(d.options[0], "firefox");
    d.update(&ModuleMessage::SelectionDown);
    assert_eq!(d.selected_index, 1);
    d.update(&ModuleMessage::SelectionUp);
    assert_eq!(d.selected_index, 0);
    let out = d.update(&ModuleMessage::ActivatedIndex(0)).unwrap();
    assert_eq!(out, "firefox");
}

#[test]
fn drun_with_no_options_echoes_the_input() {
    let d = Drun::new(Vec::new());
    assert_eq!(d.run_at_index(3), "");
}

#[test]
fn file_searcher_tracks_found_files() {
    let mut f = FileSearcher::new();
    assert!(f.take_should_search());
    assert!(!f.take_should_search());
    f.push_found(("notes.txt".to_string(), "/home/u/notes.txt".to_string()));
    f.push_found(("todo.txt".to_string(), "/home/u/todo.txt".to_string()));
    assert_eq!(f.run_at_index(1), "/home/u/todo.txt");
    f.selection_down();
    assert_eq!(f.selected_index, 1);
    f.selection_down();
    assert_eq!(f.selected_index, 1);
    f.selection_up();
    assert_eq!(f.selected_index, 0);
    f.selection_up();
    assert_eq!(f.selected_index, 0);
}

#[test]
fn file_searcher_ranks_by_name() {
    let mut f = FileSearcher::new();
    f.push_found(("report.pdf".to_string(), "/d/report.pdf".to_string()));
    f.push_found(("notes.txt".to_string(), "/d/notes.txt".to_string()));
    f.update(ModuleMessage::TextChanged("note".to_string()));
    assert_eq!(f.found_files[0].0, "notes.txt");
    assert_eq!(f.found_files[0].1, "/d/notes.txt");
    let out = f.update(ModuleMessage::ActivatedIndex(0)).unwrap();
    assert_eq!(out, "/d/notes.txt");
}

#[test]
fn search_urls_are_assembled() {
    assert_eq!(
        wikipedia_search_url("rust"),
        "https://en.wikipedia.org/w/rest.php/v1/search/title?q=rust&limit=5"
    );
    assert_eq!(
        dictionary_search_url("word"),
        "https://api.dictionaryapi.dev/api/v2/entries/en/word"
    );
}

#[test]
fn wiki_pages_become_search_results() {
    let page = WikiPage {
        key: "Rust_(programming_language)".to_string(),
        title: "Rust".to_string(),
        description: "systems language".to_string(),
        thumb_url: Some("//upload.example/thumb.png".to_string()),
    };
    let hit = SearchResult::from_wiki(page);
    assert_eq!(
        hit.destination_url,
        "https://en.wikipedia.org/wiki/Rust_(programming_language)"
    );
    assert_eq!(hit.title, "Rust");
    assert_eq!(hit.description, "systems language");
    assert_eq!(hit.image_url.as_deref(), Some("https://upload.example/thumb.png"));

    let bare = WikiPage {
        key: "K".to_string(),
        title: "T".to_string(),
        description: String::new(),
        thumb_url: None,
    };
    assert!(SearchResult::from_wiki(bare).image_url.is_none());
}

#[test]
fn dictionary_meanings_become_one_title() {
    let meanings = vec![
        DictMeaning {
            part_of_speech: "noun".to_string(),
            definitions: vec!["a thing. ".to_string(), "another thing. ".to_string()],
        },
        DictMeaning {
            part_of_speech: "verb".to_string(),
            definitions: vec!["to do a thing.".to_string()],
        },
    ];
    let hit = SearchResult::from_dictionary(&meanings);
    assert_eq!(hit.title, "a thing. another thing. to do a thing.");
    assert_eq!(hit.destination_url, "n/a");
    assert!(hit.image_url.is_none());
}

#[test]
fn search_errors_render_their_message() {
    let e = SearchError::BadResponse("404".to_string());
    assert_eq!(e.message(), "Bad Response: 404");
}
