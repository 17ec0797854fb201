use vstd::prelude::*;

verus! {

/// The name of the bundle configuration file a project carries.
pub fn config_name() -> (r: &'static str)
    ensures
        r@ == "lovebrew.toml"@,
{
    "lovebrew.toml"
}

/// The three console platforms a project can target.
#[derive(Clone, Copy, PartialEq, Eq, Structural, Debug)]
pub enum PlatformTarget {
    Ctr,
    Hac,
    Cafe,
}

impl PlatformTarget {
    /// Parses the lowercase platform tag used in configuration files and
    /// prompts.
    pub fn from_str(s: &str) -> (r: Result<PlatformTarget, String>)
        ensures
            match r {
                Ok(t) => (s@ == "ctr"@ && t == PlatformTarget::Ctr) || (s@ == "hac"@ && t
                    == PlatformTarget::Hac) || (s@ == "cafe"@ && t == PlatformTarget::Cafe),
                Err(m) => s@ != "ctr"@ && s@ != "hac"@ && s@ != "cafe"@ && m@ == "No such match"@,
            },
    {
        let owned = s.to_owned();
        if owned == "ctr".to_owned() {
            Ok(PlatformTarget::Ctr)
        } else if owned == "hac".to_owned() {
            Ok(PlatformTarget::Hac)
        } else if owned == "cafe".to_owned() {
            Ok(PlatformTarget::Cafe)
        } else {
            Err("No such match".to_owned())
        }
    }
}

/// The icon path chosen for each platform, if one was chosen.
pub struct IconSet {
    pub ctr: Option<String>,
    pub hac: Option<String>,
    pub cafe: Option<String>,
}

impl IconSet {
    /// The icon recorded for one platform.
    pub open spec fn icon(self, p: PlatformTarget) -> Option<String> {
        match p {
            PlatformTarget::Ctr => self.ctr,
            PlatformTarget::Hac => self.hac,
            PlatformTarget::Cafe => self.cafe,
        }
    }

    /// An icon set with nothing recorded.
    pub fn empty() -> (r: IconSet)
        ensures
            forall|p: PlatformTarget| #[trigger] r.icon(p) is None,
    {
        IconSet { ctr: None, hac: None, cafe: None }
    }
}

/// The descriptive half of a bundle configuration.
pub struct Metadata {
    pub name: String,
    pub author: String,
    pub description: String,
    pub version: String,
    pub icons: IconSet,
}

impl Metadata {
    /// Records the icon path for one platform, leaving every other field
    /// unchanged.
    pub fn set_icon(&mut self, platform: PlatformTarget, path: &str)
        ensures
            final(self).icons.icon(platform) matches Some(p) && p@ == path@,
            forall|q: PlatformTarget|
                q != platform ==> #[trigger] final(self).icons.icon(q) == old(self).icons.icon(q),
            final(self).name == old(self).name,
            final(self).author == old(self).author,
            final(self).description == old(self).description,
            final(self).version == old(self).version,
    {
        match platform {
            PlatformTarget::Ctr => {
                self.icons.ctr = Some(path.to_owned());
            },
            PlatformTarget::Hac => {
                self.icons.hac = Some(path.to_owned());
            },
            PlatformTarget::Cafe => {
                self.icons.cafe = Some(path.to_owned());
            },
        }
    }
}

/// The build half of a bundle configuration.
pub struct Build {
    pub targets: Vec<PlatformTarget>,
    pub source: String,
    pub packaged: bool,
}

impl Build {
    /// Whether `target` is among the selected build targets.
    pub fn has_target(&self, target: PlatformTarget) -> (r: bool)
        ensures
            r == self.targets@.contains(target),
    {
        let mut i: usize = 0;
        while i < self.targets.len()
            invariant
                0 <= i <= self.targets@.len(),
                forall|l: int| 0 <= l < i ==> self.targets@[l] != target,
            decreases self.targets@.len() - i,
        {
            if self.targets[i] == target {
                proof {
                    assert(self.targets@[i as int] == target);
                }
                return true;
            }
            i = i + 1;
        }
        proof {
            if self.targets@.contains(target) {
                let l = choose|l: int|
                    0 <= l < self.targets@.len() && self.targets@[l] == target;
                assert(self.targets@[l] != target);
            }
        }
        false
    }
}

/// A project's bundle configuration: what the bundle is, and how it is
/// built.
pub struct BundleConfig {
    pub metadata: Metadata,
    pub build: Build,
}

} // verus!
