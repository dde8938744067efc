//! Settings of the chat engine.
use vstd::prelude::*;
use crate::text::views;

verus! {

/// User-editable configuration.
#[derive(Debug, Clone)]
pub struct Config {
    pub api_id: i32,
    pub api_hash: String,
    pub chat: Vec<ChatConfig>,
    pub media_types: Vec<String>,
    pub file_formats: FileFormats,
    pub save_path: String,
    pub temp_path: String,
    pub file_path_prefix: Vec<String>,
    pub file_name_prefix: Vec<String>,
    pub file_name_prefix_split: String,
    pub max_download_task: usize,
    pub download_connections: usize,
    pub date_format: String,
}

/// A chat to download from, with an optional filter on its messages.
#[derive(Debug, Clone, PartialEq, Eq)]
pub struct ChatConfig {
    pub chat_id: String,
    pub download_filter: Option<String>,
}

/// The file extensions to download, for each kind of media.
#[derive(Debug, Clone)]
pub struct FileFormats {
    pub audio: Vec<String>,
    pub document: Vec<String>,
    pub video: Vec<String>,
}

/// Every file extension.
pub fn default_all() -> (r: Vec<String>)
    ensures
        views(r@) == seq!["all"@],
{
    let mut r: Vec<String> = Vec::new();
    r.push("all".to_owned());
    assert(views(r@) =~= seq!["all"@]);
    r
}

/// Every kind of media.
pub fn default_media_types() -> (r: Vec<String>)
    ensures
        views(r@) == seq![
            "audio"@,
            "photo"@,
            "video"@,
            "document"@,
            "voice"@,
            "video_note"@,
        ],
{
    let mut r: Vec<String> = Vec::new();
    r.push("audio".to_owned());
    r.push("photo".to_owned());
    r.push("video".to_owned());
    r.push("document".to_owned());
    r.push("voice".to_owned());
    r.push("video_note".to_owned());
    assert(views(r@) =~= seq![
        "audio"@,
        "photo"@,
        "video"@,
        "document"@,
        "voice"@,
        "video_note"@,
    ]);
    r
}

/// Where finished files go.
pub fn default_save_path() -> (r: String)
    ensures
        r@ == "downloads/telegram"@,
{
    "downloads/telegram".to_owned()
}

/// The directories of a finished file.
pub fn default_file_path_prefix() -> (r: Vec<String>)
    ensures
        views(r@) == seq!["chat_title"@, "media_datetime"@],
{
    let mut r: Vec<String> = Vec::new();
    r.push("chat_title".to_owned());
    r.push("media_datetime".to_owned());
    assert(views(r@) =~= seq!["chat_title"@, "media_datetime"@]);
    r
}

/// The parts of a file name.
pub fn default_file_name_prefix() -> (r: Vec<String>)
    ensures
        views(r@) == seq!["message_id"@, "file_name"@],
{
    let mut r: Vec<String> = Vec::new();
    r.push("message_id".to_owned());
    r.push("file_name".to_owned());
    assert(views(r@) =~= seq!["message_id"@, "file_name"@]);
    r
}

/// What stands between the parts of a file name.
pub fn default_file_name_prefix_split() -> (r: String)
    ensures
        r@ == " - "@,
{
    " - ".to_owned()
}

/// How a date is written in a path.
pub fn default_date_format() -> (r: String)
    ensures
        r@ == "%Y_%m"@,
{
    "%Y_%m".to_owned()
}

/// How many files are downloaded at the same time.
pub fn default_max_download_task() -> (r: usize)
    ensures
        r == 5,
{
    5
}

/// How many connections one download uses.
pub fn default_download_connections() -> (r: usize)
    ensures
        r == 4,
{
    4
}

impl Default for FileFormats {
    fn default() -> (r: Self)
        ensures
            views(r.audio@) == seq!["all"@],
            views(r.document@) == seq!["all"@],
            views(r.video@) == seq!["all"@],
    {
        FileFormats { audio: default_all(), document: default_all(), video: default_all() }
    }
}

impl Default for Config {
    fn default() -> (r: Self)
        ensures
            r.api_id == 0,
            r.api_hash@ == Seq::<char>::empty(),
            r.chat@.len() == 0,
            views(r.media_types@) == seq![
                "audio"@,
                "photo"@,
                "video"@,
                "document"@,
                "voice"@,
                "video_note"@,
            ],
            views(r.file_formats.audio@) == seq!["all"@],
            views(r.file_formats.document@) == seq!["all"@],
            views(r.file_formats.video@) == seq!["all"@],
            r.save_path@ == "downloads/telegram"@,
            r.temp_path@ == "temp/telegram"@,
            views(r.file_path_prefix@) == seq!["chat_title"@, "media_datetime"@],
            views(r.file_name_prefix@) == seq!["message_id"@, "file_name"@],
            r.file_name_prefix_split@ == " - "@,
            r.max_download_task == 5,
            r.download_connections == 4,
            r.date_format@ == "%Y_%m"@,
    {
        Config {
            api_id: 0,
            api_hash: String::new(),
            chat: Vec::new(),
            media_types: default_media_types(),
            file_formats: FileFormats::default(),
            save_path: default_save_path(),
            temp_path: "temp/telegram".to_owned(),
            file_path_prefix: default_file_path_prefix(),
            file_name_prefix: default_file_name_prefix(),
            file_name_prefix_split: default_file_name_prefix_split(),
            max_download_task: default_max_download_task(),
            download_connections: default_download_connections(),
            date_format: default_date_format(),
        }
    }
}

} // verus!
