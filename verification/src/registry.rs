//! The table of loaded object detectors. Loading the same cascade twice
//! yields the same handle and keeps the detector already there. Each entry
//! remembers the last NV21 frame it was run on.
use vstd::prelude::*;
use vstd::string::StringSliceAdditionalSpecFns;
use std::collections::HashMap;
use crate::gray::{Gray, GrayImage, jpeg_gray_encoding};
use crate::key::{md5_digest, hex_text, parse_hex_text, be_value, key_of_digest, hex_of, parse_hex, md5_compute, lemma_parse_hex_of_text};
use crate::param::{ParameterSetting, ParameterError, read_setting, spec_read_setting};

verus! {

broadcast use vstd::std_specs::hash::group_hash_axioms;

/// A registered detector and the last frame it was run on.
pub struct DetectorEntry<D> {
    pub detector: D,
    pub last_frame: Option<GrayImage>,
}

impl<D> DetectorEntry<D> {
    /// The last frame, as an image view.
    pub open spec fn last_frame_view(self) -> Option<Gray> {
        match self.last_frame {
            Some(f) => Some(f@),
            None => None,
        }
    }
}

/// A parsed detector handle.
pub struct DetectorKey {
    value: u128,
}

impl DetectorKey {
    /// The registry key the handle designates.
    pub closed spec fn spec_value(self) -> u128 {
        self.value
    }
}

/// The registry key a handle text designates: the big-endian value of the
/// digest it spells, when it spells one.
pub open spec fn key_of_text(text: Seq<u8>) -> Option<u128> {
    match parse_hex_text(text) {
        Some(d) => Some(be_value(d) as u128),
        None => None,
    }
}

/// The registry key of a cascade: the big-endian value of its MD5 digest.
pub open spec fn key_of_model(model: Seq<u8>) -> u128 {
    be_value(md5_digest(model)) as u128
}

/// The last frame of the detector under `handle` in a registry, if there is one.
pub open spec fn last_frame_in<D>(m: Map<u128, DetectorEntry<D>>, handle: Seq<u8>) -> Option<Gray> {
    match key_of_text(handle) {
        Some(k) => if m.contains_key(k) {
            m[k].last_frame_view()
        } else {
            None
        },
        None => None,
    }
}

/// Whether a detector is registered under `handle`.
pub open spec fn registered<D>(m: Map<u128, DetectorEntry<D>>, handle: Seq<u8>) -> bool {
    key_of_text(handle) matches Some(k) && m.contains_key(k)
}

/// The calls that change the registry.
pub enum RegistryCall {
    /// A detector is registered for a cascade, unless its handle is taken.
    Create { model: Seq<u8> },
    /// The detector under a handle is unregistered.
    Remove { handle: Seq<u8> },
    /// The detector under a handle is used or tuned; its last frame stays.
    Update { handle: Seq<u8> },
    /// The detector under a handle is run on a frame, which becomes its last frame.
    Search { handle: Seq<u8>, frame: Gray },
}

/// How a call may change the registry, from `before` to `after`. Detectors
/// are the caller's to change; everything else is fixed.
pub open spec fn call_effect<D>(
    before: Map<u128, DetectorEntry<D>>,
    call: RegistryCall,
    after: Map<u128, DetectorEntry<D>>,
) -> bool {
    match call {
        RegistryCall::Create { model } => {
            let k = key_of_model(model);
            if before.contains_key(k) {
                after == before
            } else {
                &&& after == before.insert(k, after[k])
                &&& after[k].last_frame is None
            }
        },
        RegistryCall::Remove { handle } => after == match key_of_text(handle) {
            Some(k) => before.remove(k),
            None => before,
        },
        RegistryCall::Update { handle } => if registered(before, handle) {
            let k = key_of_text(handle).unwrap();
            &&& after == before.insert(k, after[k])
            &&& after[k].last_frame_view() == before[k].last_frame_view()
        } else {
            after == before
        },
        RegistryCall::Search { handle, frame } => if registered(before, handle) {
            let k = key_of_text(handle).unwrap();
            &&& after == before.insert(k, after[k])
            &&& after[k].last_frame_view() == Some(frame)
        } else {
            after == before
        },
    }
}

/// The frame a call searches under key `k`, if it is a search there.
pub open spec fn searched_frame(call: RegistryCall, k: u128) -> Option<Gray> {
    match call {
        RegistryCall::Search { handle, frame } => if key_of_text(handle) == Some(k) {
            Some(frame)
        } else {
            None
        },
        _ => None,
    }
}

/// The frame of the last search under key `k` in a run of calls, if any.
pub open spec fn last_search(calls: Seq<RegistryCall>, k: u128) -> Option<Gray>
    decreases calls.len(),
{
    if calls.len() == 0 {
        None
    } else {
        match searched_frame(calls.last(), k) {
            Some(g) => Some(g),
            None => last_search(calls.drop_last(), k),
        }
    }
}

/// Whether a call unregisters the detector under key `k`.
pub open spec fn removes(call: RegistryCall, k: u128) -> bool {
    call matches RegistryCall::Remove { handle } && key_of_text(handle) == Some(k)
}

/// `states` are the registries before and after each of `calls`.
pub open spec fn is_run<D>(states: Seq<Map<u128, DetectorEntry<D>>>, calls: Seq<RegistryCall>) -> bool {
    &&& states.len() == calls.len() + 1
    &&& forall|i: int| 0 <= i < calls.len() ==> call_effect(states[i], #[trigger] calls[i], states[i + 1])
}

/// The handle of a cascade: the hex text of its MD5 digest.
pub fn model_handle(model: &[u8]) -> (handle: Vec<u8>)
    ensures
        handle@ == hex_text(md5_digest(model@)),
        key_of_text(handle@) == Some(key_of_model(model@)),
{
    let digest = md5_compute(model);
    proof {
        lemma_parse_hex_of_text(digest@);
    }
    hex_of(&digest)
}

/// Detectors by handle.
pub struct DetectorRegistry<D> {
    entries: HashMap<u128, DetectorEntry<D>>,
}

impl<D> View for DetectorRegistry<D> {
    type V = Map<u128, DetectorEntry<D>>;

    closed spec fn view(&self) -> Map<u128, DetectorEntry<D>> {
        self.entries@
    }
}

impl<D> DetectorRegistry<D> {
    /// An empty registry.
    pub fn new() -> (r: Self)
        ensures
            r@ == Map::<u128, DetectorEntry<D>>::empty(),
    {
        DetectorRegistry { entries: HashMap::new() }
    }

    /// Parses a handle into its key, if it is one of the handles this
    /// registry hands out (32 lower-case hex digits).
    pub fn parse_handle(handle: &str) -> (key: Option<DetectorKey>)
        ensures
            match key {
                Some(k) => key_of_text(handle.spec_bytes()) == Some(k.spec_value()),
                None => key_of_text(handle.spec_bytes()) is None,
            },
    {
        match parse_hex(handle.as_bytes()) {
            Some(d) => Some(DetectorKey { value: key_of_digest(&d) }),
            None => None,
        }
    }

    /// Registers a detector for a cascade. The handle is the hex text of the
    /// cascade's MD5 digest; a detector is built with `make` only when none is
    /// registered under that handle yet, and starts with no last frame.
    pub fn create<F: FnOnce() -> D>(&mut self, model: &[u8], make: F) -> (handle: Vec<u8>)
        requires
            make.requires(()),
        ensures
            handle@ == hex_text(md5_digest(model@)),
            key_of_text(handle@) == Some(key_of_model(model@)),
            old(self)@.contains_key(key_of_model(model@)) ==> final(self)@ == old(self)@,
            !old(self)@.contains_key(key_of_model(model@)) ==> {
                let e = final(self)@[key_of_model(model@)];
                &&& final(self)@ == old(self)@.insert(key_of_model(model@), e)
                &&& make.ensures((), e.detector)
                &&& e.last_frame is None
            },
            call_effect(old(self)@, RegistryCall::Create { model: model@ }, final(self)@),
    {
        let digest = md5_compute(model);
        let key = key_of_digest(&digest);
        let handle = hex_of(&digest);
        proof {
            lemma_parse_hex_of_text(digest@);
        }
        if !self.entries.contains_key(&key) {
            let detector = make();
            self.entries.insert(key, DetectorEntry { detector, last_frame: None });
        }
        handle
    }

    /// Whether a detector is registered under `handle`.
    pub fn contains(&self, handle: &str) -> (b: bool)
        ensures
            b == (key_of_text(handle.spec_bytes()) matches Some(k) && self@.contains_key(k)),
    {
        match Self::parse_handle(handle) {
            Some(k) => self.entries.contains_key(&k.value),
            None => false,
        }
    }

    /// Unregisters the detector under `handle`, if any.
    pub fn remove(&mut self, handle: &str)
        ensures
            final(self)@ == match key_of_text(handle.spec_bytes()) {
                Some(k) => old(self)@.remove(k),
                None => old(self)@,
            },
            call_effect(old(self)@, RegistryCall::Remove { handle: handle.spec_bytes() }, final(self)@),
    {
        match Self::parse_handle(handle) {
            Some(k) => {
                if self.entries.contains_key(&k.value) {
                    self.entries.remove(&k.value);
                } else {
                    assert(self.entries@.remove(k.value) =~= self.entries@);
                }
            },
            None => {},
        }
    }

    /// Hands the detector under `handle` to `f`, which gives back the
    /// detector (possibly changed) and a result; the entry's last frame is
    /// kept. `None`, with nothing changed, when no detector is registered there.
    pub fn update_detector<R, F: FnOnce(D) -> (D, R)>(&mut self, handle: &str, f: F) -> (r: Option<R>)
        requires
            forall|d: D| #[trigger] f.requires((d,)),
        ensures
            call_effect(old(self)@, RegistryCall::Update { handle: handle.spec_bytes() }, final(self)@),
            r is Some <==> registered(old(self)@, handle.spec_bytes()),
            r matches Some(v) ==> {
                let k = key_of_text(handle.spec_bytes()).unwrap();
                f.ensures((old(self)@[k].detector,), (final(self)@[k].detector, v))
            },
    {
        let k = match Self::parse_handle(handle) {
            Some(k) => k,
            None => return None,
        };
        match self.entries.remove(&k.value) {
            None => {
                assert(self.entries@ =~= old(self)@);
                None
            },
            Some(entry) => {
                let DetectorEntry { detector, last_frame } = entry;
                let (detector, result) = f(detector);
                self.entries.insert(k.value, DetectorEntry { detector, last_frame });
                proof {
                    assert(self.entries@ =~= old(self)@.insert(k.value, self.entries@[k.value]));
                }
                Some(result)
            },
        }
    }

    /// Runs the detector under `handle` on `frame` through `f`, which gives
    /// back the detector (possibly changed) and a result; `frame` becomes the
    /// entry's last frame. `None`, with nothing changed, when no detector is
    /// registered there.
    pub fn search_frame<R, F: FnOnce(D, &GrayImage) -> (D, R)>(&mut self, handle: &str, frame: GrayImage, f: F) -> (r: Option<R>)
        requires
            forall|d: D, g: &GrayImage| #[trigger] f.requires((d, g)),
        ensures
            call_effect(old(self)@, RegistryCall::Search { handle: handle.spec_bytes(), frame: frame@ }, final(self)@),
            r is Some <==> registered(old(self)@, handle.spec_bytes()),
            r matches Some(v) ==> {
                let k = key_of_text(handle.spec_bytes()).unwrap();
                f.ensures((old(self)@[k].detector, &frame), (final(self)@[k].detector, v))
            },
    {
        let k = match Self::parse_handle(handle) {
            Some(k) => k,
            None => return None,
        };
        match self.entries.remove(&k.value) {
            None => {
                assert(self.entries@ =~= old(self)@);
                None
            },
            Some(entry) => {
                let DetectorEntry { detector, last_frame: _ } = entry;
                let (detector, result) = f(detector, &frame);
                self.entries.insert(k.value, DetectorEntry { detector, last_frame: Some(frame) });
                proof {
                    assert(self.entries@ =~= old(self)@.insert(k.value, self.entries@[k.value]));
                }
                Some(result)
            },
        }
    }

    /// Reads a parameter change for the detector under `handle`: refused
    /// when no detector is registered there, then as [`read_setting`] decides.
    pub fn check_setting(&self, handle: &str, name: &str, value: &str) -> (r: Result<ParameterSetting, ParameterError>)
        ensures
            r == if key_of_text(handle.spec_bytes()) matches Some(k) && self@.contains_key(k) {
                spec_read_setting(name.spec_bytes(), value.spec_bytes())
            } else {
                Err(ParameterError::DetectorMissing)
            },
    {
        if !self.contains(handle) {
            return Err(ParameterError::DetectorMissing);
        }
        read_setting(name, value)
    }

    /// The last frame of the detector under `handle`, as a JPEG file; `None`
    /// when there is no such detector or it has not been run on a frame yet.
    pub fn last_frame_jpeg(&self, handle: &str) -> (jpeg: Option<Vec<u8>>)
        ensures
            match last_frame_in(self@, handle.spec_bytes()) {
                Some(g) => jpeg matches Some(bytes) && bytes@ == jpeg_gray_encoding(g.pixels, g.width, g.height),
                None => jpeg is None,
            },
    {
        let k = match Self::parse_handle(handle) {
            Some(k) => k,
            None => return None,
        };
        match self.entries.get(&k.value) {
            None => None,
            Some(entry) => match &entry.last_frame {
                None => None,
                Some(frame) => frame.to_jpeg(),
            },
        }
    }
}

/// The last frame of a registered detector, over any run of calls that does
/// not unregister it, is the frame of the last search on its handle in the
/// run, or the one it had before the run when there was no search.
pub proof fn lemma_last_frame_follows_searches<D>(
    states: Seq<Map<u128, DetectorEntry<D>>>,
    calls: Seq<RegistryCall>,
    k: u128,
)
    requires
        is_run(states, calls),
        states[0].contains_key(k),
        forall|i: int| 0 <= i < calls.len() ==> !removes(#[trigger] calls[i], k),
    ensures
        states.last().contains_key(k),
        states.last()[k].last_frame_view() == match last_search(calls, k) {
            Some(g) => Some(g),
            None => states[0][k].last_frame_view(),
        },
    decreases calls.len(),
{
    if calls.len() > 0 {
        let n = calls.len() - 1;
        let prefix_states = states.subrange(0, n + 1);
        let prefix_calls = calls.subrange(0, n);
        assert(prefix_calls =~= calls.drop_last());
        assert forall|i: int| 0 <= i < prefix_calls.len() implies call_effect(
            prefix_states[i],
            #[trigger] prefix_calls[i],
            prefix_states[i + 1],
        ) by {
            assert(call_effect(states[i], calls[i], states[i + 1]));
        }
        assert forall|i: int| 0 <= i < prefix_calls.len() implies !removes(#[trigger] prefix_calls[i], k) by {
            assert(!removes(calls[i], k));
        }
        lemma_last_frame_follows_searches(prefix_states, prefix_calls, k);
        let before = states[n];
        let after = states[n + 1];
        assert(call_effect(before, calls[n], after));
        assert(!removes(calls[n], k));
        assert(states.last() == after);
        match calls[n] {
            RegistryCall::Create { model } => {
                let km = key_of_model(model);
                if !before.contains_key(km) {
                    assert(km != k);
                }
            },
            RegistryCall::Remove { handle } => {},
            RegistryCall::Update { handle } => {},
            RegistryCall::Search { handle, frame } => {},
        }
    }
}

/// A search on another handle, or any call other than a search, does not
/// decide the last search on `k`.
proof fn lemma_last_search_skips_first(calls: Seq<RegistryCall>, k: u128)
    requires
        calls.len() > 0,
        searched_frame(calls[0], k) is None,
    ensures
        last_search(calls, k) == last_search(calls.drop_first(), k),
    decreases calls.len(),
{
    if calls.len() > 1 {
        assert(calls.drop_last().drop_first() =~= calls.drop_first().drop_last());
        assert(calls.drop_first().last() == calls.last());
        assert(calls.drop_last()[0] == calls[0]);
        let rest = calls.drop_first();
        assert(rest.len() > 0);
        assert(last_search(rest, k) == match searched_frame(rest.last(), k) {
            Some(g) => Some(g),
            None => last_search(rest.drop_last(), k),
        });
        assert(last_search(calls, k) == match searched_frame(calls.last(), k) {
            Some(g) => Some(g),
            None => last_search(calls.drop_last(), k),
        });
        lemma_last_search_skips_first(calls.drop_last(), k);
    } else {
        assert(calls.drop_first().len() == 0);
        assert(calls.drop_last().len() == 0);
        assert(calls.last() == calls[0]);
        assert(last_search(calls, k) == match searched_frame(calls.last(), k) {
            Some(g) => Some(g),
            None => last_search(calls.drop_last(), k),
        });
    }
}

/// What the last frame under a new handle is: after the call that registers
/// a detector for `model`, and any later calls that do not unregister it, the
/// last frame under its handle is the frame of the last search on that
/// handle, or none when there was no search.
pub proof fn lemma_last_frame_after_create<D>(
    states: Seq<Map<u128, DetectorEntry<D>>>,
    calls: Seq<RegistryCall>,
    model: Seq<u8>,
    handle: Seq<u8>,
)
    requires
        is_run(states, calls),
        calls.len() > 0,
        calls[0] == (RegistryCall::Create { model }),
        !states[0].contains_key(key_of_model(model)),
        key_of_text(handle) == Some(key_of_model(model)),
        forall|i: int| 0 <= i < calls.len() ==> !removes(#[trigger] calls[i], key_of_model(model)),
    ensures
        last_frame_in(states.last(), handle) == last_search(calls, key_of_model(model)),
{
    let k = key_of_model(model);
    assert(call_effect(states[0], calls[0], states[1]));
    let rest_states = states.drop_first();
    let rest_calls = calls.drop_first();
    assert forall|i: int| 0 <= i < rest_calls.len() implies call_effect(
        rest_states[i],
        #[trigger] rest_calls[i],
        rest_states[i + 1],
    ) by {
        assert(call_effect(states[i + 1], calls[i + 1], states[i + 2]));
    }
    assert forall|i: int| 0 <= i < rest_calls.len() implies !removes(#[trigger] rest_calls[i], k) by {
        assert(!removes(calls[i + 1], k));
    }
    lemma_last_frame_follows_searches(rest_states, rest_calls, k);
    lemma_last_search_skips_first(calls, k);
    assert(rest_states.last() == states.last());
}

} // verus!
