//! The decision the hello-world example's build script makes: whether to
//! pass its own linker script to the linker.
use vstd::prelude::*;

verus! {

/// `needle` occurs somewhere in `hay`.
pub open spec fn contains_bytes(hay: Seq<u8>, needle: Seq<u8>) -> bool {
    exists|k: int| 0 <= k && k + needle.len() <= hay.len() && #[trigger] hay.subrange(k, k + needle.len()) == needle
}

/// Whether `needle` occurs in `hay`.
pub fn bytes_contain(hay: &[u8], needle: &[u8]) -> (r: bool)
    ensures
        r == contains_bytes(hay@, needle@),
{
    if needle.len() > hay.len() {
        return false;
    }
    let last = hay.len() - needle.len();
    let mut k: usize = 0;
    while k <= last
        invariant
            last == hay@.len() - needle@.len(),
            k <= last + 1,
            forall|j: int| 0 <= j < k ==> #[trigger] hay@.subrange(j, j + needle@.len()) != needle@,
        ensures
            forall|j: int| 0 <= j <= last ==> #[trigger] hay@.subrange(j, j + needle@.len()) != needle@,
        decreases last + 1 - k,
    {
        let mut t: usize = 0;
        let mut same = true;
        while t < needle.len()
            invariant
                k + needle@.len() <= hay.len(),
                t <= needle@.len(),
                same == forall|u: int| 0 <= u < t ==> hay@[k + u] == needle@[u],
            decreases needle@.len() - t,
        {
            if hay[k + t] != needle[t] {
                same = false;
            }
            t = t + 1;
        }
        if same {
            assert(hay@.subrange(k as int, k + needle@.len()) =~= needle@);
            return true;
        }
        assert(exists|u: int| 0 <= u < needle@.len() && hay@[k + u] != needle@[u]);
        let ghost u = choose|u: int| 0 <= u < needle@.len() && hay@[k + u] != needle@[u];
        assert(hay@.subrange(k as int, k + needle@.len())[u] != needle@[u]);
        if k == last {
            break;
        }
        k = k + 1;
    }
    false
}

/// The bytes of `.axconfig.toml`.
pub open spec fn name_axconfig() -> Seq<u8> {
    seq![0x2eu8, 0x61u8, 0x78u8, 0x63u8, 0x6fu8, 0x6eu8, 0x66u8, 0x69u8, 0x67u8, 0x2eu8, 0x74u8, 0x6fu8, 0x6du8, 0x6cu8]
}

/// The bytes of `examples/helloworld`.
pub open spec fn name_example_dir() -> Seq<u8> {
    seq![0x65u8, 0x78u8, 0x61u8, 0x6du8, 0x70u8, 0x6cu8, 0x65u8, 0x73u8, 0x2fu8, 0x68u8, 0x65u8, 0x6cu8, 0x6cu8, 0x6fu8, 0x77u8, 0x6fu8, 0x72u8, 0x6cu8, 0x64u8]
}

/// The bytes of `none`.
pub open spec fn name_none() -> Seq<u8> {
    seq![0x6eu8, 0x6fu8, 0x6eu8, 0x65u8]
}

/// The build goes through the top-level Makefile when `AX_CONFIG_PATH`
/// names the root `.axconfig.toml` rather than the example's own config.
pub open spec fn spec_is_makefile_build(ax_config_path: Seq<u8>) -> bool {
    contains_bytes(ax_config_path, name_axconfig()) && !contains_bytes(ax_config_path, name_example_dir())
}

/// Whether the build script passes the example's linker script and link
/// flags: only for bare-metal targets (the target triple contains `none`)
/// built without the Makefile, which passes its own.
pub fn use_linker_script(target: &[u8], ax_config_path: &[u8]) -> (r: bool)
    ensures
        r == (contains_bytes(target@, name_none()) && !spec_is_makefile_build(ax_config_path@)),
{
    let axc = vec![0x2eu8, 0x61u8, 0x78u8, 0x63u8, 0x6fu8, 0x6eu8, 0x66u8, 0x69u8, 0x67u8, 0x2eu8, 0x74u8, 0x6fu8, 0x6du8, 0x6cu8];
    let exd = vec![0x65u8, 0x78u8, 0x61u8, 0x6du8, 0x70u8, 0x6cu8, 0x65u8, 0x73u8, 0x2fu8, 0x68u8, 0x65u8, 0x6cu8, 0x6cu8, 0x6fu8, 0x77u8, 0x6fu8, 0x72u8, 0x6cu8, 0x64u8];
    let non = vec![0x6eu8, 0x6fu8, 0x6eu8, 0x65u8];
    assert(axc@ =~= name_axconfig());
    assert(exd@ =~= name_example_dir());
    assert(non@ =~= name_none());
    let is_makefile_build = bytes_contain(ax_config_path, axc.as_slice())
        && !bytes_contain(ax_config_path, exd.as_slice());
    bytes_contain(target, non.as_slice()) && !is_makefile_build
}

} // verus!
