//! The hand-written readers agree with the regular expressions that define
//! the file names and versions, on many generated texts.

use regex::Regex;
use samples::npmjs::package::{parse_tarball_name, TarballNameError};
use samples::pypi::package::{normalize, sdist_distribution, wheel_distribution};
use samples::pypi::version::{Version, VersionDevPhase, VersionError, VersionPrePhase};

struct Texts {
    state: u64,
}

impl Texts {
    fn next_u32(&mut self) -> u32 {
        self.state = self.state.wrapping_mul(6364136223846793005).wrapping_add(1442695040888963407);
        (self.state >> 33) as u32
    }

    fn text(&mut self, alphabet: &[&str], max_len: u32) -> String {
        let len = self.next_u32() % (max_len + 1);
        let mut s = String::new();
        for _ in 0..len {
            s.push_str(alphabet[(self.next_u32() as usize) % alphabet.len()]);
        }
        s
    }
}

const PKG: &str = r"(?x)
        (?P<name>[a-z0-9-]+)
        -
        (?P<version>
            (?P<major>[0-9]+)
            \.
            (?P<minor>[0-9]+)
            \.
            (?P<patch>[0-9]+)
            (?:
                -
                (?P<pre>
                    [A-Za-z0-9-]+
                    (
                        \.
                        [A-Za-z0-9-]+
                    )*
                )
            )?
            (?:
                \+
                (?P<build>
                    [A-Za-z0-9-]+
                    (
                        \.
                        [A-Za-z0-9-]+
                    )*
                )
            )?
        )
        \.tgz
        ";

#[test]
fn tarball_names_agree_with_the_pattern() {
    let re = Regex::new(PKG).unwrap();
    let alphabet = ["a", "b", "Z", "-", ".", "+", "0", "1", "9", ".tgz", "1.2.3", "70000", "x"];
    let mut g = Texts { state: 7 };
    for _ in 0..20000 {
        let s = g.text(&alphabet, 10);
        let expected = re.captures(&s).map(|m| {
            let num = |n: &str| m.name(n).unwrap().as_str().parse::<u16>().ok();
            (
                m.name("name").unwrap().as_str().to_string(),
                m.name("version").unwrap().as_str().to_string(),
                num("major"),
                num("minor"),
                num("patch"),
            )
        });
        let got = parse_tarball_name(&s);
        match expected {
            None => assert!(matches!(got, Ok(None)), "{:?}", s),
            Some((n, v, Some(a), Some(b), Some(c))) => {
                assert!(matches!(&got, Ok(Some(x)) if *x == (n.clone(), v.clone(), (a, b, c))), "{:?}", s)
            }
            Some(_) => assert!(matches!(got, Err(TarballNameError::NumberTooLarge)), "{:?}", s),
        }
    }
}

const SDIST: &str = r"(?x)
        (?P<distribution>[^-]+)
        -(?P<version>[^-]+)
        \.tar\.gz
        ";

const WHEEL: &str = r"(?x)
        (?P<distribution>[^-]+)
        -(?P<version>[^-]+)
        (-(?P<build_tag>\d.*))?
        -(?P<python_tag>[^-]+)
        -(?P<abi_tag>[^-]+)
        -(?P<platform_tag>[^-]+)
        \.whl
        ";

fn dist_and_version(re: &Regex, s: &str) -> Option<(String, String)> {
    re.captures(s).map(|m| {
        (
            m.name("distribution").unwrap().as_str().to_string(),
            m.name("version").unwrap().as_str().to_string(),
        )
    })
}

#[test]
fn package_file_names_agree_with_the_patterns() {
    let sdist = Regex::new(SDIST).unwrap();
    let wheel = Regex::new(WHEEL).unwrap();
    let alphabet = ["a", "-", ".", "1", "٣", "\n", ".tar.gz", ".whl", "py3", "x-y"];
    let mut g = Texts { state: 11 };
    for _ in 0..20000 {
        let s = g.text(&alphabet, 10);
        assert_eq!(sdist_distribution(&s), dist_and_version(&sdist, &s), "{:?}", s);
        assert_eq!(wheel_distribution(&s), dist_and_version(&wheel, &s), "{:?}", s);
    }
}

#[test]
fn normalized_names_agree_with_the_pattern() {
    let re = Regex::new(r"[-_.]+").unwrap();
    let alphabet = ["a", "B", "-", "_", ".", "é", "1"];
    let mut g = Texts { state: 3 };
    for _ in 0..20000 {
        let s = g.text(&alphabet, 12);
        assert_eq!(normalize(&s), re.replace_all(&s, "-").to_string(), "{:?}", s);
    }
}

const VERSION: &str = r"(?x)
        v?
        (?:
            (?:(?P<epoch>[0-9]+)!)?
            (?P<release>[0-9]+(?:\.[0-9]+)*)
            (?P<pre>
                [-_\.]?
                (?P<pre_phase>alpha|a|beta|b|preview|pre|c|rc)
                [-_\.]?
                (?P<pre_num>[0-9]+)?
            )?
            (?P<post>
                (?:-(?P<post_num1>[0-9]+))
                |
                (?:
                    [-_\.]?
                    (?P<post_phase>post|rev|r)
                    [-_\.]?
                    (?P<post_num2>[0-9]+)?
                )
            )?
            (?P<dev>
                [-_\.]?
                (?P<dev_phase>dev)
                [-_\.]?
                (?P<dev_num>[0-9]+)?
            )?
        )
        (?:\+(?P<local>[a-z0-9]+(?:[-_\.][a-z0-9]+)*))?
        ";

type Fields = (
    u16,
    Vec<u16>,
    (VersionPrePhase, u16),
    Option<(Option<String>, u16)>,
    (VersionDevPhase, u16),
    Option<String>,
);

/// What the pattern reads: `None` without a match, `Some(None)` where a
/// number is missing or too large.
fn reference(re: &Regex, s: &str) -> Option<Option<Fields>> {
    let m = re.captures(s)?;
    let num = |n: &str| m.name(n).map(|f| f.as_str().parse::<u16>().ok());
    let epoch = match num("epoch") {
        Some(Some(e)) => e,
        Some(None) => return Some(None),
        None => 0,
    };
    let mut release = vec![];
    for part in m.name("release").unwrap().as_str().split('.') {
        match part.parse::<u16>() {
            Ok(n) => release.push(n),
            Err(_) => return Some(None),
        }
    }
    let pre = match m.name("pre_phase").map(|f| f.as_str()) {
        Some(p) => {
            let phase = match p {
                "alpha" | "a" => VersionPrePhase::Alpha,
                "beta" | "b" => VersionPrePhase::Beta,
                _ => VersionPrePhase::Preview,
            };
            match num("pre_num") {
                Some(Some(n)) => (phase, n),
                _ => return Some(None),
            }
        }
        None => (VersionPrePhase::Release, 0),
    };
    let post = match m.name("post_phase").map(|f| f.as_str().to_string()) {
        Some(p) => match num("post_num2") {
            Some(Some(n)) => Some((Some(p), n)),
            _ => return Some(None),
        },
        None => match num("post_num1") {
            Some(Some(n)) => Some((None, n)),
            Some(None) => return Some(None),
            None => None,
        },
    };
    let dev = match m.name("dev_phase") {
        Some(_) => match num("dev_num") {
            Some(Some(n)) => (VersionDevPhase::Dev, n),
            _ => return Some(None),
        },
        None => (VersionDevPhase::Release, 0),
    };
    let local = m.name("local").map(|f| f.as_str().to_string());
    Some(Some((epoch, release, pre, post, dev, local)))
}

#[test]
fn versions_agree_with_the_pattern() {
    let re = Regex::new(VERSION).unwrap();
    let alphabet = [
        "v", "1", "0", "99999", "!", ".", "-", "_", "+", "a", "b", "rc", "c", "pre", "preview",
        "alpha", "beta", "post", "rev", "r", "dev", "x", "z",
    ];
    let mut g = Texts { state: 5 };
    for _ in 0..30000 {
        let s = g.text(&alphabet, 8);
        let got = Version::try_new(&s);
        match reference(&re, &s) {
            None => assert!(matches!(got, Ok(None)), "{:?}", s),
            Some(None) => assert_eq!(got.err(), Some(VersionError::Malformed), "{:?}", s),
            Some(Some(f)) => {
                let v = got.ok().flatten().unwrap();
                let id = &v.identifier;
                let fields: Fields = (
                    id.epoch,
                    id.release.clone(),
                    id.pre.clone(),
                    id.post.clone(),
                    id.dev.clone(),
                    id.local.clone(),
                );
                assert_eq!(fields, f, "{:?}", s);
                assert_eq!(v.as_str(), s);
            }
        }
    }
}
