use notechart_cache::changed::{find_changed_notecharts, ChangedNotechart, ChartContent};
use notechart_cache::get_hash;
use notechart_cache::parse::get_notechart_data;

fn sample_content() -> Vec<u8> {
    b"osu file format v14\r\n\
\r\n\
[General]\r\n\
AudioFilename: song.mp3\r\n\
\r\n\
[Metadata]\r\n\
Title:Night Walk\r\n\
TitleUnicode:unused\r\n\
Artist:Someone\r\n\
Version:Hard\r\n\
\r\n\
[Events]\r\n\
//Background and Video events\r\n\
0,0,\"bg.png\",0,0\r\n\
"
    .to_vec()
}

#[test]
fn metadata_fields_are_extracted() {
    let data = get_notechart_data("R/SetA/chart1.osu", &sample_content());
    assert_eq!(data.artist, "Someone");
    assert_eq!(data.title, "Night Walk");
    assert_eq!(data.version, "Hard");
    assert_eq!(data.audio, "song.mp3");
    assert_eq!(data.background, "bg.png");
    assert_eq!(data.path, "R/SetA/chart1.osu");
    assert_eq!(data.id, 0);
    assert!(data.set_id.is_none());
}

#[test]
fn missing_background_gives_empty_string() {
    let content = b"[Metadata]\nArtist:A\n[Events]\n//nothing\n".to_vec();
    let data = get_notechart_data("p", &content);
    assert_eq!(data.background, "");
    assert_eq!(data.artist, "A");
    assert_eq!(data.title, "");
}

#[test]
fn background_outside_events_section_is_ignored() {
    let content = b"0,0,\"fake.png\",0,0\n[Events]\n0,0,real.png,0,0\n".to_vec();
    let data = get_notechart_data("p", &content);
    assert_eq!(data.background, "real.png");
}

#[test]
fn unix_line_breaks_and_value_trimming() {
    let content = b"[General]\nAudioFilename:   audio.ogg  \n[Metadata]\nArtist:  X \n".to_vec();
    let data = get_notechart_data("p", &content);
    assert_eq!(data.audio, "audio.ogg");
    assert_eq!(data.artist, "X");
}

fn row(id: i64, hash: &str, name: &str) -> ChangedNotechart {
    ChangedNotechart {
        id,
        set_id: 7,
        hash: hash.to_string(),
        set_path: "R/SetA".to_string(),
        filename: name.to_string(),
    }
}

#[test]
fn classification_splits_changed_and_removed() {
    let a = b"content a".to_vec();
    let b_new = b"content b, edited".to_vec();
    let rows = vec![
        row(1, &get_hash(&a), "a.osu"),
        row(2, &get_hash(b"content b"), "b.osu"),
        row(3, &get_hash(b"content c"), "c.osu"),
        row(4, &get_hash(b"content d"), "d.osu"),
    ];
    let observed = vec![
        ChartContent { id: 1, content: Ok(a) },
        ChartContent { id: 2, content: Ok(b_new.clone()) },
        ChartContent {
            id: 3,
            content: Err(std::io::Error::new(std::io::ErrorKind::NotFound, "gone")),
        },
    ];
    let (changed, removed) = find_changed_notecharts(&rows, &observed);
    assert_eq!(changed.len(), 1);
    assert_eq!(changed[0].id, 2);
    assert_eq!(changed[0].hash, get_hash(&b_new));
    assert_eq!(changed[0].filename, "b.osu");
    assert_eq!(removed.len(), 1);
    assert_eq!(removed[0].id, 3);
    assert_eq!(removed[0].filename, "c.osu");
}
