//! Which file an engine's settings are taken over from.
use vstd::prelude::*;
use crate::configuration::patch::{named, Json, JsonView};
use crate::text::{join2, join3};

verus! {

/// An engine whose settings are taken over.
#[derive(Debug, Clone, Copy, PartialEq, Eq, Structural)]
pub enum Engine {
    Telegram,
    Jav,
}

/// A file that settings are taken over from.
#[derive(Debug, Clone, Copy, PartialEq, Eq, Structural)]
pub enum Source {
    /// The file of the engine in the working directory.
    Root,
    /// The file in the directory of the engine.
    Nested,
    /// The file that belongs to one engine or the other.
    Flat,
}

/// Why no file was chosen.
#[derive(Debug, Clone, Copy, PartialEq, Eq, Structural)]
pub enum DiscoverError {
    /// It cannot be told which engine the flat file belongs to.
    Unidentified,
    /// There is more than one.
    Several,
}

impl Engine {
    /// What the engine is called in the names of files.
    pub open spec fn label(self) -> Seq<char> {
        match self {
            Engine::Telegram => "telegram"@,
            Engine::Jav => "jav"@,
        }
    }

    /// What the engine is called in the names of files.
    pub fn name(self) -> (r: &'static str)
        ensures
            r@ == self.label(),
    {
        match self {
            Engine::Telegram => "telegram",
            Engine::Jav => "jav",
        }
    }
}

impl Source {
    /// Where the file of an engine is.
    pub fn path(self, engine: Engine) -> (r: String)
        ensures
            r@ == (match self {
                Source::Root => engine.label() + ".yaml"@,
                Source::Nested => "config/"@ + engine.label() + "/config.yaml"@,
                Source::Flat => "config/config.yaml"@,
            }),
    {
        match self {
            Source::Root => join2(engine.name(), ".yaml"),
            Source::Nested => join3("config/", engine.name(), "/config.yaml"),
            Source::Flat => "config/config.yaml".to_owned(),
        }
    }
}

impl DiscoverError {
    /// What is said of it.
    pub fn message(self, engine: Engine, destination: &str) -> (r: String)
        ensures
            r@ == (match self {
                DiscoverError::Unidentified =>
                    "cannot identify config/config.yaml; use config/telegram/config.yaml or config/jav/config.yaml"@,
                DiscoverError::Several => "multiple legacy "@ + engine.label()
                    + " configs found; keep one or provide "@ + destination@,
            }),
    {
        match self {
            DiscoverError::Unidentified =>
                "cannot identify config/config.yaml; use config/telegram/config.yaml or config/jav/config.yaml".to_owned(),
            DiscoverError::Several => {
                let head = join3(
                    "multiple legacy ",
                    engine.name(),
                    " configs found; keep one or provide ",
                );
                join2(head.as_str(), destination)
            },
        }
    }
}

/// Whether settings are those of the chat engine.
pub open spec fn of_telegram(v: JsonView) -> bool {
    named(v, "api_id"@) is Some || named(v, "api_hash"@) is Some || named(v, "chat"@) is Some
}

/// Whether settings are those of the video engine.
pub open spec fn of_jav(v: JsonView) -> bool {
    ||| named(v, "site_base"@) is Some
    ||| named(v, "popular_path"@) is Some
    ||| named(v, "links"@) is Some
    ||| named(v, "cookie"@) is Some
    ||| named(v, "daily_enabled"@) is Some
    ||| named(v, "daily_time"@) is Some
    ||| named(v, "top_n"@) is Some
    ||| named(v, "browser_enabled"@) is Some
    ||| named(v, "resolution"@) is Some
    ||| named(v, "segment_concurrency"@) is Some
}

/// The engine that settings belong to, where that can be told.
pub fn identify(settings: &Json) -> (r: Option<Engine>)
    ensures
        r == (if of_telegram(settings@) == of_jav(settings@) {
            None
        } else if of_telegram(settings@) {
            Some(Engine::Telegram)
        } else {
            Some(Engine::Jav)
        }),
{
    let telegram = settings.get("api_id").is_some() || settings.get("api_hash").is_some()
        || settings.get("chat").is_some();
    let jav = settings.get("site_base").is_some() || settings.get("popular_path").is_some()
        || settings.get("links").is_some() || settings.get("cookie").is_some() || settings.get(
        "daily_enabled",
    ).is_some() || settings.get("daily_time").is_some() || settings.get("top_n").is_some()
        || settings.get("browser_enabled").is_some() || settings.get("resolution").is_some()
        || settings.get("segment_concurrency").is_some();
    if telegram == jav {
        None
    } else if telegram {
        Some(Engine::Telegram)
    } else {
        Some(Engine::Jav)
    }
}

/// What is there: the file in its place, and the files to take it over from.
pub struct Found<'a> {
    /// The settings are in their place already.
    pub destination: bool,
    pub root: bool,
    pub nested: bool,
    /// The flat file, where there is one.
    pub flat: Option<&'a Json>,
}

/// Which file the settings of an engine are taken over from.
pub open spec fn chosen(engine: Engine, found: Found) -> Result<Option<Source>, DiscoverError> {
    if found.destination {
        Ok(None)
    } else if found.root {
        Ok(Some(Source::Root))
    } else {
        match found.flat {
            None => if found.nested {
                Ok(Some(Source::Nested))
            } else {
                Ok(None)
            },
            Some(v) => if of_telegram(v@) == of_jav(v@) {
                Err(DiscoverError::Unidentified)
            } else if (engine == Engine::Telegram) != of_telegram(v@) {
                if found.nested {
                    Ok(Some(Source::Nested))
                } else {
                    Ok(None)
                }
            } else if found.nested {
                Err(DiscoverError::Several)
            } else {
                Ok(Some(Source::Flat))
            },
        }
    }
}

/// Which file the settings of an engine are taken over from: the one in the
/// working directory, else the only one under `config/`.
pub fn discover_config(engine: Engine, found: &Found) -> (r: Result<Option<Source>, DiscoverError>)
    ensures
        r == chosen(engine, *found),
{
    if found.destination {
        return Ok(None);
    }
    if found.root {
        return Ok(Some(Source::Root));
    }
    let flat = match found.flat {
        None => false,
        Some(v) => match identify(v) {
            None => return Err(DiscoverError::Unidentified),
            Some(owner) => owner == engine,
        },
    };
    if found.nested && flat {
        Err(DiscoverError::Several)
    } else if found.nested {
        Ok(Some(Source::Nested))
    } else if flat {
        Ok(Some(Source::Flat))
    } else {
        Ok(None)
    }
}

/// The flat file is taken over by one engine at most, and settings that are in
/// their place are never taken over.
pub proof fn law_one_owner(a: Found, b: Found)
    requires
        a.flat == b.flat,
    ensures
        chosen(Engine::Telegram, a) == Ok::<Option<Source>, DiscoverError>(Some(Source::Flat))
            ==> chosen(Engine::Jav, b) != Ok::<Option<Source>, DiscoverError>(Some(Source::Flat)),
        a.destination ==> chosen(Engine::Telegram, a) == Ok::<Option<Source>, DiscoverError>(None)
            && chosen(Engine::Jav, a) == Ok::<Option<Source>, DiscoverError>(None),
{
}

} // verus!
