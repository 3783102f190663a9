use skeg_rigging::embed::{EmbedError, OllamaEmbed};

#[test]
fn connect_takes_probe_dimension() {
    let e = OllamaEmbed::connect("http://h:1".into(), "m".into(), 768).unwrap();
    assert_eq!(e.dim(), 768);
    assert_eq!(e.url(), "http://h:1");
    assert_eq!(e.model(), "m");
    assert_eq!(e.embed_url(), "http://h:1/api/embed");
}

#[test]
fn connect_refuses_zero_dimension() {
    let err = OllamaEmbed::connect("u".into(), "mx".into(), 0).err().unwrap();
    assert!(matches!(&err, EmbedError::ZeroLengthVector { model } if model == "mx"));
    assert_eq!(err.to_string(), "embedder 'mx' returned a zero-length vector");
}

#[test]
fn query_gets_prefix_passage_does_not() {
    let e = OllamaEmbed::connect("u".into(), "m".into(), 3).unwrap();
    assert_eq!(
        e.query_input("cats"),
        "Represent this sentence for searching relevant passages: cats"
    );
    assert_eq!(e.passage_input("cats"), "cats");
}
