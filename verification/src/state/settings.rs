//! What the settings file of the machine says, read once and kept: no command
//! finds two of its own paths under two different settings.

use crate::error::{self, Error, Refusal};
use crate::host::{self, Home, HomeView};
use crate::path::{self, join};
use crate::recipe;
use crate::state::{self, SETTINGS_FILE, terra_home_path};
use crate::text;
use vstd::prelude::*;

verus! {

/// Where the settings put the directories that grow.
#[derive(Debug)]
pub struct Settings {
    pub boxes: Option<String>,
    pub cache: Option<String>,
}

#[verifier::ext_equal]
pub struct SettingsView {
    pub boxes: Option<Seq<char>>,
    pub cache: Option<Seq<char>>,
}

impl View for Settings {
    type V = SettingsView;

    open spec fn view(&self) -> SettingsView {
        SettingsView { boxes: text::text_of(self.boxes), cache: text::text_of(self.cache) }
    }
}

/// What came of reading the settings file.
#[derive(Debug)]
pub enum SettingsRead {
    Missing,
    /// It could not be read, for this reason.
    Unreadable(String),
    /// The YAML parser holds this against it.
    Malformed(String),
    Read(Settings),
}

#[verifier::ext_equal]
pub enum SettingsReadView {
    Missing,
    Unreadable(Seq<char>),
    Malformed(Seq<char>),
    Read(SettingsView),
}

impl View for SettingsRead {
    type V = SettingsReadView;

    open spec fn view(&self) -> SettingsReadView {
        match self {
            SettingsRead::Missing => SettingsReadView::Missing,
            SettingsRead::Unreadable(why) => SettingsReadView::Unreadable(why@),
            SettingsRead::Malformed(why) => SettingsReadView::Malformed(why@),
            SettingsRead::Read(settings) => SettingsReadView::Read(settings@),
        }
    }
}

/// What the machine is set to. No file overrides nothing; one that is there and
/// cannot be used is an error, and never answered with the defaults.
pub open spec fn settings_of(home: HomeView, read: SettingsReadView) -> Result<
    SettingsView,
    Refusal,
> {
    match home.dir {
        Err(message) => Err(error::refusal(message)),
        Ok(dir) => {
            let file = path::placed(path::placed(dir, ".terra"@), SETTINGS_FILE@);
            match read {
                SettingsReadView::Missing => Ok(SettingsView { boxes: None, cache: None }),
                SettingsReadView::Unreadable(why) => Err(
                    error::refusal("reading "@ + file) + error::refusal(why),
                ),
                SettingsReadView::Malformed(why) => Err(
                    error::refusal("failed to parse "@ + file) + error::refusal(why),
                ),
                SettingsReadView::Read(settings) => Ok(settings),
            }
        },
    }
}

/// What the machine is set to, by what reading the file gave.
pub fn read_settings(home: &Home, read: SettingsRead) -> (settings: Result<
    Settings,
    Error,
>)
    ensures
        match settings {
            Ok(settings) => settings_of(home@, read@) == Ok::<_, Refusal>(
                settings@,
            ),
            Err(error) => settings_of(home@, read@) == Err::<SettingsView, _>(
                error@,
            ),
        },
{
    let terra = match terra_home_path(home) {
        Ok(terra) => terra,
        Err(error) => {
            return Err(error);
        },
    };
    match read {
        SettingsRead::Missing => Ok(Settings { boxes: None, cache: None }),
        SettingsRead::Unreadable(why) => {
            let mut what: String = "reading ".to_owned();
            what.append(join(terra.as_str(), SETTINGS_FILE).as_str());
            Err(Error::new(why).context(what))
        },
        SettingsRead::Malformed(why) => {
            let mut what: String = "failed to parse ".to_owned();
            what.append(join(terra.as_str(), SETTINGS_FILE).as_str());
            Err(Error::new(why).context(what))
        },
        SettingsRead::Read(settings) => Ok(settings),
    }
}

/// The settings as they were first read.
#[derive(Debug)]
pub struct SettledSettings {
    settled: Option<Settings>,
}

impl View for SettledSettings {
    type V = Option<SettingsView>;

    closed spec fn view(&self) -> Option<SettingsView> {
        match self.settled {
            Some(settings) => Some(settings@),
            None => None,
        }
    }
}

/// What the settings are where some may be settled already: those that are stay,
/// whatever the file says by now.
pub open spec fn settled_as(
    settled: Option<SettingsView>,
    home: HomeView,
    read: SettingsReadView,
) -> Result<SettingsView, Refusal> {
    match settled {
        Some(settings) => Ok(settings),
        None => settings_of(home, read),
    }
}

/// What is settled afterwards: only settings that could be used.
pub open spec fn settled_after(
    settled: Option<SettingsView>,
    home: HomeView,
    read: SettingsReadView,
) -> Option<SettingsView> {
    match settled_as(settled, home, read) {
        Ok(settings) => Some(settings),
        Err(_) => None,
    }
}

/// Where all boxes are kept, by the settings.
pub open spec fn box_home(
    settled: Option<SettingsView>,
    home: HomeView,
    read: SettingsReadView,
) -> Result<Seq<char>, Refusal> {
    match settled_as(settled, home, read) {
        Ok(settings) => state::directory_path(home, settings.boxes, "storage.boxes"@, "box"@),
        Err(refused) => Err(refused),
    }
}

/// Where the kernel and the boot volume are unpacked, by the settings.
pub open spec fn cache_dir(
    settled: Option<SettingsView>,
    home: HomeView,
    read: SettingsReadView,
) -> Result<Seq<char>, Refusal> {
    match settled_as(settled, home, read) {
        Ok(settings) => state::directory_path(home, settings.cache, "storage.cache"@, "cache"@),
        Err(refused) => Err(refused),
    }
}

impl SettledSettings {
    pub fn new() -> (settings: SettledSettings)
        ensures
            settings@ is None,
    {
        SettledSettings { settled: None }
    }

    /// Whether the file was read, so that what it holds no longer matters.
    pub fn is_settled(&self) -> (yes: bool)
        ensures
            yes == (self@ is Some),
    {
        self.settled.is_some()
    }

    fn settle(&mut self, home: &Home, read: SettingsRead) -> (settled: Result<
        (),
        Error,
    >)
        ensures
            final(self)@ == settled_after(old(self)@, home@, read@),
            match settled_as(old(self)@, home@, read@) {
                Ok(_) => settled is Ok,
                Err(refused) => settled is Err && settled->Err_0@ == refused,
            },
    {
        if self.settled.is_some() {
            return Ok(());
        }
        match read_settings(home, read) {
            Ok(settings) => {
                self.settled = Some(settings);
                Ok(())
            },
            Err(error) => Err(error),
        }
    }

    /// Where all boxes are kept; `read` is what the settings file holds by now.
    pub fn box_home_path(&mut self, home: &Home, read: SettingsRead) -> (path: Result<
        String,
        Error,
    >)
        ensures
            final(self)@ == settled_after(old(self)@, home@, read@),
            match path {
                Ok(path) => box_home(old(self)@, home@, read@) == Ok::<
                    _,
                    Refusal,
                >(path@),
                Err(error) => box_home(old(self)@, home@, read@) == Err::<
                    Seq<char>,
                    _,
                >(error@),
            },
    {
        if let Err(error) = self.settle(home, read) {
            return Err(error);
        }
        match &self.settled {
            Some(settings) => state::box_home_path(home, &settings.boxes),
            None => state::box_home_path(home, &None),
        }
    }

    /// Where the kernel and the boot volume are unpacked; `read` is what the
    /// settings file holds by now.
    pub fn cache_path(&mut self, home: &Home, read: SettingsRead) -> (path: Result<
        String,
        Error,
    >)
        ensures
            final(self)@ == settled_after(old(self)@, home@, read@),
            match path {
                Ok(path) => cache_dir(old(self)@, home@, read@) == Ok::<
                    _,
                    Refusal,
                >(path@),
                Err(error) => cache_dir(old(self)@, home@, read@) == Err::<
                    Seq<char>,
                    _,
                >(error@),
            },
    {
        if let Err(error) = self.settle(home, read) {
            return Err(error);
        }
        match &self.settled {
            Some(settings) => state::cache_path(home, &settings.cache),
            None => state::cache_path(home, &None),
        }
    }
}

/// The settings are read once: a path that was found is found again whatever has
/// become of the file, and by then it decides on the other one too. Settings
/// that could not be used are not kept, so that a file that was mended counts.
pub proof fn settings_are_read_once(
    settled: Option<SettingsView>,
    home: HomeView,
    read: SettingsReadView,
    later: SettingsReadView,
)
    ensures
        ({
            let after = settled_after(settled, home, read);
            &&& box_home(settled, home, read) is Ok ==> box_home(after, home, later) == box_home(
                settled,
                home,
                read,
            ) && cache_dir(after, home, later) == cache_dir(settled, home, read)
            &&& cache_dir(settled, home, read) is Ok ==> cache_dir(after, home, later)
                == cache_dir(settled, home, read) && box_home(after, home, later) == box_home(
                settled,
                home,
                read,
            )
            &&& settled_as(settled, home, read) is Ok ==> settled_after(after, home, later) == after
            &&& settled_as(settled, home, read) is Err ==> after is None && box_home(
                after,
                home,
                later,
            ) == box_home(None, home, later)
        }),
{
}

/// A machine is set up by default, by what its settings say, or not at all:
/// without a file, or with one that says nothing of it, the boxes lie in terra's
/// own directory; an absolute directory is taken as it is; and a file that
/// cannot be read or makes no sense is refused.
pub proof fn settings_are_never_ignored(home: HomeView, read: SettingsReadView)
    requires
        home.dir is Ok,
    ensures
        ({
            let dir = home.dir->Ok_0;
            let found = box_home(None, home, read);
            match read {
                SettingsReadView::Missing => found == Ok::<_, Refusal>(
                    path::placed(path::placed(dir, ".terra"@), "box"@),
                ),
                SettingsReadView::Unreadable(_) | SettingsReadView::Malformed(_) => found is Err,
                SettingsReadView::Read(settings) => match settings.boxes {
                    None => found == Ok::<_, Refusal>(
                        path::placed(path::placed(dir, ".terra"@), "box"@),
                    ),
                    Some(boxes) => found is Ok ==> host::is_absolute(found->Ok_0, home.os)
                        && recipe::expanded(boxes, home) == found,
                },
            }
        }),
{
}

} // verus!
