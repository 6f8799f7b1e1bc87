use bytes::Bytes;
use disklog::appendqueue::{dispatch, Dispatch, QUEUE_SIZE};
use disklog::bodyreader::BodyReader;
use disklog::config::{Config, EnvValue};
use disklog::open::open_tail_file;
use disklog::read::{after_chunk, chunk_buffer, ReadOptions, ReaderStream};
use disklog::route::{parse_path_parts, route, Method, Route};
use disklog::topicname::{valid_topic_name_char, TopicName, MAX_LENGTH};
use disklog::{open_log, OpenedLog};

#[test]
fn topic_name_is_short_and_of_valid_characters() {
    assert_eq!(32, MAX_LENGTH);
    for name in ["", "a", "orders", "Orders_2024", "100%", "_", "caf\u{e9}", "\u{0661}\u{0662}"] {
        let topic = TopicName::parse(name).expect(name);
        assert_eq!(name, topic.to_str());
    }
    for name in ["a b", "a-b", "a/b", "a.b", "..", "a\n", "a\u{1f600}"] {
        assert!(TopicName::parse(name).is_none(), "{:?}", name);
    }
    let longest = "a".repeat(32);
    assert_eq!(longest, TopicName::parse(&longest).unwrap().to_str());
    assert!(TopicName::parse(&"a".repeat(33)).is_none());
    // The length is counted in bytes: 16 letters of two bytes fit, 17 do not.
    assert!(TopicName::parse(&"\u{e9}".repeat(16)).is_some());
    assert!(TopicName::parse(&"\u{e9}".repeat(17)).is_none());
}

#[test]
fn topic_name_characters() {
    for ch in ['a', 'Z', '0', '9', '_', '%', '\u{e9}', '\u{4e2d}', '\u{0661}'] {
        assert!(valid_topic_name_char(ch), "{:?}", ch);
    }
    for ch in [' ', '-', '/', '.', '\\', '\0', '$', '&', '=', '\u{1f600}'] {
        assert!(!valid_topic_name_char(ch), "{:?}", ch);
    }
}

#[test]
fn path_is_cut_into_its_parts() {
    assert_eq!(Vec::<&str>::new(), parse_path_parts(""));
    assert_eq!(Vec::<&str>::new(), parse_path_parts("/"));
    assert_eq!(Vec::<&str>::new(), parse_path_parts("topic"));
    assert_eq!(vec!["topic"], parse_path_parts("/topic"));
    assert_eq!(vec!["topic"], parse_path_parts("/topic/"));
    assert_eq!(vec!["topic", "orders", "items"], parse_path_parts("/topic/orders/items"));
    assert_eq!(vec!["topic", "orders", "items"], parse_path_parts("/topic/orders/items/"));
    assert_eq!(vec!["topic", "", "items"], parse_path_parts("/topic//items"));
    assert_eq!(vec!["", ""], parse_path_parts("///"));
    assert_eq!(vec!["a", "caf\u{e9}", "b"], parse_path_parts("x/a/caf\u{e9}/b"));
}

fn reference_path_parts(path: &str) -> Vec<&str> {
    let mut path_parts = path.split('/').skip(1).collect::<Vec<_>>();
    if path_parts.last() == Some(&"") {
        path_parts.pop();
    }
    path_parts
}

#[test]
fn path_parts_agree_with_the_standard_split() {
    for path in ["", "/", "//", "///", "a", "a/", "/a", "/a/b", "/a//b/", "/\u{e9}/\u{4e2d}\u{6587}/", "/topic/x/items"] {
        assert_eq!(reference_path_parts(path), parse_path_parts(path), "{:?}", path);
    }
}

#[test]
fn requests_go_to_their_handlers() {
    assert_eq!(Route::Index, route(Method::Get, &parse_path_parts("/")));
    assert_eq!(Route::NotFound, route(Method::Post, &parse_path_parts("/")));
    assert_eq!(Route::CreateTopic("orders"), route(Method::Put, &parse_path_parts("/topic/orders")));
    assert_eq!(Route::NotFound, route(Method::Get, &parse_path_parts("/topic/orders")));
    assert_eq!(
        Route::AppendItem("orders"),
        route(Method::Post, &parse_path_parts("/topic/orders/items"))
    );
    assert_eq!(
        Route::ReadItems("orders"),
        route(Method::Get, &parse_path_parts("/topic/orders/items/"))
    );
    assert_eq!(Route::NotFound, route(Method::Put, &parse_path_parts("/topic/orders/items")));
    assert_eq!(Route::NotFound, route(Method::Other, &parse_path_parts("/topic/orders/items")));
    assert_eq!(Route::NotFound, route(Method::Get, &parse_path_parts("/topics/orders/items")));
    assert_eq!(Route::NotFound, route(Method::Get, &parse_path_parts("/topic/orders/item")));
    assert_eq!(Route::NotFound, route(Method::Get, &parse_path_parts("/topic/orders/items/more")));
    assert_eq!(Route::NotFound, route(Method::Get, &parse_path_parts("/topic")));
}

#[test]
fn config_takes_the_address_from_the_environment() {
    assert_eq!("SIMPLES_ADDRESS", Config::address_key());
    assert_eq!("0.0.0.0:3000", Config::default().address);
    assert_eq!("0.0.0.0:3000", Config::from_env(EnvValue::NotPresent).ok().unwrap().address);
    assert_eq!(
        "127.0.0.1:8080",
        Config::from_env(EnvValue::Present("127.0.0.1:8080".to_string())).ok().unwrap().address
    );
    assert_eq!(
        Some("Could not parse config key 'SIMPLES_ADDRESS'".to_string()),
        Config::from_env(EnvValue::NotUnicode).err()
    );
}

#[test]
fn chunk_that_fits_is_handed_on_whole() {
    let mut reader = BodyReader::new();
    assert!(reader.resume(16).is_none());
    let part = reader.accept(Bytes::from_static(b"hello"), 16);
    assert_eq!(&b"hello"[..], &part[..]);
    assert!(reader.resume(16).is_none());
    let part = reader.accept(Bytes::from_static(b"world"), 5);
    assert_eq!(&b"world"[..], &part[..]);
    assert!(reader.resume(16).is_none());
    let part = reader.accept(Bytes::new(), 5);
    assert!(part.is_empty());
    assert!(reader.resume(16).is_none());
}

#[test]
fn chunk_that_does_not_fit_is_cut() {
    let mut reader = BodyReader::new();
    let part = reader.accept(Bytes::from_static(b"hello world"), 4);
    assert_eq!(&b"hell"[..], &part[..]);
    let part = reader.resume(4).expect("something is left over");
    assert_eq!(&b"o wo"[..], &part[..]);
    let part = reader.resume(0).expect("something is left over");
    assert!(part.is_empty());
    let part = reader.resume(3).expect("something is left over");
    assert_eq!(&b"rld"[..], &part[..]);
    assert!(reader.resume(3).is_none());
}

#[test]
fn first_chunk_of_an_item_starts_with_its_frame() {
    let tail = open_tail_file(true, &[]).unwrap();
    let OpenedLog { reader_factory, .. } = open_log(tail, 0x0102_0304_0506_0716).unwrap();
    let reader = reader_factory.read_from(0x0102_0304_0506_0708);
    let item = reader
        .read_item(&disklog::record::encode_header(0x0102_0304_0506_0708, 0x0a0b_0c0d))
        .unwrap();
    assert_eq!(
        vec![1u8, 2, 3, 4, 5, 6, 7, 8, 0x0a, 0x0b, 0x0c, 0x0d],
        chunk_buffer(true, &item)
    );
    assert_eq!(Vec::<u8>::new(), chunk_buffer(false, &item));
}

#[test]
fn stream_is_between_items_once_the_payload_is_exhausted() {
    let options = disklog::query::parse_query_string("wait_for_more=true")
        .and_then(ReadOptions::from_query)
        .unwrap();
    let tail = open_tail_file(true, &[]).unwrap();
    let OpenedLog { reader_factory, .. } = open_log(tail, 100).unwrap();
    let mut item = reader_factory
        .read_from(10)
        .read_item(&disklog::record::encode_header(10, 5))
        .unwrap();
    item.advance(2);
    let mut item = match after_chunk(options, item) {
        ReaderStream::Reading(kept, item) => {
            assert_eq!(options, kept);
            assert_eq!(3, item.left_to_read());
            item
        }
        ReaderStream::Between(..) => panic!("three bytes are left"),
    };
    item.advance(3);
    match after_chunk(options, item) {
        ReaderStream::Between(kept, reader) => {
            assert_eq!(options, kept);
            assert_eq!(21, reader.position());
        }
        ReaderStream::Reading(..) => panic!("nothing is left"),
    }
}

#[test]
fn append_requests_are_dispatched() {
    assert_eq!(64, QUEUE_SIZE);
    assert_eq!(Dispatch::Forward, dispatch(true, true));
    assert_eq!(Dispatch::Forward, dispatch(true, false));
    assert_eq!(Dispatch::Open, dispatch(false, true));
    assert_eq!(Dispatch::Refuse, dispatch(false, false));
    assert_eq!("Topic does not exist", disklog::appendqueue::Error::TopicDoesNotExist.message());
    assert_eq!("gone", disklog::appendqueue::Error::Io("gone".to_string()).message());
    assert_eq!("Invalid topic name", disklog::error::Error::InvalidTopicName.message());
}
