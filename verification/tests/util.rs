use renderer::colour::hex_channels;
use renderer::util::{component_name, file_name, normalise_path, Component};

#[test]
fn file_name_is_the_last_component() {
    assert_eq!(file_name("models/tree/tree.obj"), Ok("tree.obj".to_owned()));
    assert_eq!(file_name("tree.obj"), Ok("tree.obj".to_owned()));
    assert_eq!(file_name("models/tree/"), Ok("tree".to_owned()));
}

#[test]
fn file_name_of_a_path_without_one() {
    assert_eq!(file_name(".."), Err("Path has no file name"));
    assert_eq!(file_name("models/.."), Err("Path has no file name"));
    assert_eq!(file_name("/"), Err("Path has no file name"));
    assert_eq!(file_name(""), Err("Path has no file name"));
}

#[test]
fn component_name_gives_each_error() {
    assert_eq!(component_name(Component::Missing), Err("Path has no file name"));
    assert_eq!(component_name(Component::NotUtf8), Err("File name is not valid UTF-8"));
    assert_eq!(component_name(Component::Name("a.png".to_owned())), Ok("a.png".to_owned()));
}

#[test]
fn normalise_path_turns_backslashes() {
    assert_eq!(normalise_path("textures\\wood\\oak.png"), "textures/wood/oak.png");
    assert_eq!(normalise_path("a/b\\c"), "a/b/c");
    assert_eq!(normalise_path("plain"), "plain");
    assert_eq!(normalise_path(""), "");
    assert_eq!(normalise_path("\\\\"), "//");
}

#[test]
fn hex_channels_split() {
    assert_eq!(hex_channels(0x0a96ed), (10, 150, 237));
    assert_eq!(hex_channels(0x000000), (0, 0, 0));
    assert_eq!(hex_channels(0xffffff), (255, 255, 255));
    assert_eq!(hex_channels(0xff0000), (255, 0, 0));
    assert_eq!(hex_channels(0x12345678), (0x34, 0x56, 0x78));
}
