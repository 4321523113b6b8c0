use vstd::prelude::*;

use crate::error::AgeError;

verus! {

/// The state of a key or a button within a frame.
#[derive(Debug, Clone, Copy, PartialEq, Eq, Hash, Structural)]
pub enum ButtonState {
    /// Not pressed.
    Unpressed,
    /// Pressed during this frame.
    Pressed,
    /// Pressed before this frame, and still down.
    Held,
    /// Released during this frame.
    Released,
}

impl core::default::Default for ButtonState {
    fn default() -> (s: Self)
        ensures
            s == ButtonState::Unpressed,
    {
        ButtonState::Unpressed
    }
}

/// The state after a press (`pressed`) or a release (`!pressed`) of a key
/// in state `s`: an unpressed key becomes pressed, a pressed one held, a held
/// one released; any other event leaves the state as it is.
pub open spec fn transition(s: ButtonState, pressed: bool) -> ButtonState {
    match s {
        ButtonState::Unpressed if pressed => ButtonState::Pressed,
        ButtonState::Pressed if pressed => ButtonState::Held,
        ButtonState::Held if !pressed => ButtonState::Released,
        _ => s,
    }
}

/// Whether a mouse event changes the button's state: a press of an unpressed
/// or pressed button, or a release of a held one. Mouse input accepts no
/// other event.
pub open spec fn mouse_transition_ok(s: ButtonState, pressed: bool) -> bool {
    match s {
        ButtonState::Unpressed => pressed,
        ButtonState::Pressed => pressed,
        ButtonState::Held => !pressed,
        ButtonState::Released => false,
    }
}

/// The state at the start of the next frame: a pressed key is held, a
/// released one is unpressed.
pub open spec fn flushed(s: ButtonState) -> ButtonState {
    match s {
        ButtonState::Unpressed => ButtonState::Unpressed,
        ButtonState::Pressed => ButtonState::Held,
        ButtonState::Held => ButtonState::Held,
        ButtonState::Released => ButtonState::Unpressed,
    }
}

fn next_state(s: ButtonState, pressed: bool) -> (r: ButtonState)
    ensures
        r == transition(s, pressed),
{
    match s {
        ButtonState::Unpressed if pressed => ButtonState::Pressed,
        ButtonState::Pressed if pressed => ButtonState::Held,
        ButtonState::Held if !pressed => ButtonState::Released,
        _ => s,
    }
}

fn flush_state(s: ButtonState) -> (r: ButtonState)
    ensures
        r == flushed(s),
{
    match s {
        ButtonState::Unpressed => ButtonState::Unpressed,
        ButtonState::Pressed => ButtonState::Held,
        ButtonState::Held => ButtonState::Held,
        ButtonState::Released => ButtonState::Unpressed,
    }
}

/// A mouse button.
#[derive(Debug, Clone, Copy, PartialEq, Eq, Hash, Structural)]
pub enum MouseButton {
    Left,
    Right,
    Middle,
    Back,
    Forward,
    Other(u16),
}

/// A key on the keyboard: by what it means, where it is, or by its physical
/// position.
#[derive(Debug, Clone, Copy, PartialEq, Eq, Hash, Structural)]
pub enum Key {
    KeyCode { keycode: KeyCode, location: KeyLocation },
    ScanCode(ScanCode),
}

/// Where on the keyboard a key is, among keys of the same meaning.
#[derive(Debug, Clone, Copy, PartialEq, Eq, Hash, Structural)]
pub enum KeyLocation {
    Standard,
    Left,
    Right,
    Numpad,
}

/// What a key means: the character it types, or a named key.
#[derive(Debug, Clone, Copy, PartialEq, Eq, Hash, Structural)]
pub enum KeyCode {
    Char(char),
    Alt,
    AltGr,
    CapsLock,
    Control,
    Fn,
    FnLock,
    NumLock,
    ScrollLock,
    Shift,
    Symbol,
    SymbolLock,
    Meta,
    Hyper,
    Super,
    Enter,
    Tab,
    Space,
    ArrowDown,
    ArrowLeft,
    ArrowRight,
    ArrowUp,
    End,
    Home,
    PageDown,
    PageUp,
    Backspace,
    Clear,
    Copy,
    CrSel,
    Cut,
    Delete,
    EraseEof,
    ExSel,
    Insert,
    Paste,
    Redo,
    Undo,
    Accept,
    Again,
    Attn,
    Cancel,
    ContextMenu,
    Escape,
    Execute,
    Find,
    Help,
    Pause,
    Play,
    Props,
    Select,
    ZoomIn,
    ZoomOut,
    BrightnessDown,
    BrightnessUp,
    Eject,
    LogOff,
    Power,
    PowerOff,
    PrintScreen,
    Hibernate,
    Standby,
    WakeUp,
    AllCandidates,
    Alphanumeric,
    CodeInput,
    Compose,
    Convert,
    FinalMode,
    GroupFirst,
    GroupLast,
    GroupNext,
    GroupPrevious,
    ModeChange,
    NextCandidate,
    NonConvert,
    PreviousCandidate,
    Process,
    SingleCandidate,
    HangulMode,
    HanjaMode,
    JunjaMode,
    Eisu,
    Hankaku,
    Hiragana,
    HiraganaKatakana,
    KanaMode,
    KanjiMode,
    Katakana,
    Romaji,
    Zenkaku,
    ZenkakuHankaku,
    Soft1,
    Soft2,
    Soft3,
    Soft4,
    ChannelDown,
    ChannelUp,
    Close,
    MailForward,
    MailReply,
    MailSend,
    MediaClose,
    MediaFastForward,
    MediaPause,
    MediaPlay,
    MediaPlayPause,
    MediaRecord,
    MediaRewind,
    MediaStop,
    MediaTrackNext,
    MediaTrackPrevious,
    New,
    Open,
    Print,
    Save,
    SpellCheck,
    Key11,
    Key12,
    AudioBalanceLeft,
    AudioBalanceRight,
    AudioBassBoostDown,
    AudioBassBoostToggle,
    AudioBassBoostUp,
    AudioFaderFront,
    AudioFaderRear,
    AudioSurroundModeNext,
    AudioTrebleDown,
    AudioTrebleUp,
    AudioVolumeDown,
    AudioVolumeUp,
    AudioVolumeMute,
    MicrophoneToggle,
    MicrophoneVolumeDown,
    MicrophoneVolumeUp,
    MicrophoneVolumeMute,
    SpeechCorrectionList,
    SpeechInputToggle,
    LaunchApplication1,
    LaunchApplication2,
    LaunchCalendar,
    LaunchContacts,
    LaunchMail,
    LaunchMediaPlayer,
    LaunchMusicPlayer,
    LaunchPhone,
    LaunchScreenSaver,
    LaunchSpreadsheet,
    LaunchWebBrowser,
    LaunchWebCam,
    LaunchWordProcessor,
    BrowserBack,
    BrowserFavorites,
    BrowserForward,
    BrowserHome,
    BrowserRefresh,
    BrowserSearch,
    BrowserStop,
    AppSwitch,
    Call,
    Camera,
    CameraFocus,
    EndCall,
    GoBack,
    GoHome,
    HeadsetHook,
    LastNumberRedial,
    Notification,
    MannerMode,
    VoiceDial,
    TV,
    TV3DMode,
    TVAntennaCable,
    TVAudioDescription,
    TVAudioDescriptionMixDown,
    TVAudioDescriptionMixUp,
    TVContentsMenu,
    TVDataService,
    TVInput,
    TVInputComponent1,
    TVInputComponent2,
    TVInputComposite1,
    TVInputComposite2,
    TVInputHDMI1,
    TVInputHDMI2,
    TVInputHDMI3,
    TVInputHDMI4,
    TVInputVGA1,
    TVMediaContext,
    TVNetwork,
    TVNumberEntry,
    TVPower,
    TVRadioService,
    TVSatellite,
    TVSatelliteBS,
    TVSatelliteCS,
    TVSatelliteToggle,
    TVTerrestrialAnalog,
    TVTerrestrialDigital,
    TVTimer,
    AVRInput,
    AVRPower,
    ColorF0Red,
    ColorF1Green,
    ColorF2Yellow,
    ColorF3Blue,
    ColorF4Grey,
    ColorF5Brown,
    ClosedCaptionToggle,
    Dimmer,
    DisplaySwap,
    Dvr,
    Exit,
    FavoriteClear0,
    FavoriteClear1,
    FavoriteClear2,
    FavoriteClear3,
    FavoriteRecall0,
    FavoriteRecall1,
    FavoriteRecall2,
    FavoriteRecall3,
    FavoriteStore0,
    FavoriteStore1,
    FavoriteStore2,
    FavoriteStore3,
    Guide,
    GuideNextDay,
    GuidePreviousDay,
    Info,
    InstantReplay,
    Link,
    ListProgram,
    LiveContent,
    Lock,
    MediaApps,
    MediaAudioTrack,
    MediaLast,
    MediaSkipBackward,
    MediaSkipForward,
    MediaStepBackward,
    MediaStepForward,
    MediaTopMenu,
    NavigateIn,
    NavigateNext,
    NavigateOut,
    NavigatePrevious,
    NextFavoriteChannel,
    NextUserProfile,
    OnDemand,
    Pairing,
    PinPDown,
    PinPMove,
    PinPToggle,
    PinPUp,
    PlaySpeedDown,
    PlaySpeedReset,
    PlaySpeedUp,
    RandomToggle,
    RcLowBattery,
    RecordSpeedNext,
    RfBypass,
    ScanChannelsToggle,
    ScreenModeNext,
    Settings,
    SplitScreenToggle,
    STBInput,
    STBPower,
    Subtitle,
    Teletext,
    VideoModeNext,
    Wink,
    ZoomToggle,
    F1,
    F2,
    F3,
    F4,
    F5,
    F6,
    F7,
    F8,
    F9,
    F10,
    F11,
    F12,
    F13,
    F14,
    F15,
    F16,
    F17,
    F18,
    F19,
    F20,
    F21,
    F22,
    F23,
    F24,
    F25,
    F26,
    F27,
    F28,
    F29,
    F30,
    F31,
    F32,
    F33,
    F34,
    F35,
}

/// A key by its physical position on the keyboard.
#[derive(Debug, Clone, Copy, PartialEq, Eq, Hash, Structural)]
pub enum ScanCode {
    Backquote,
    Backslash,
    BracketLeft,
    BracketRight,
    Comma,
    Num0,
    Num1,
    Num2,
    Num3,
    Num4,
    Num5,
    Num6,
    Num7,
    Num8,
    Num9,
    Equal,
    IntlBackslash,
    IntlRo,
    IntlYen,
    A,
    B,
    C,
    D,
    E,
    F,
    G,
    H,
    I,
    J,
    K,
    L,
    M,
    N,
    O,
    P,
    Q,
    R,
    S,
    T,
    U,
    V,
    W,
    X,
    Y,
    Z,
    Minus,
    Period,
    Quote,
    Semicolon,
    Slash,
    AltLeft,
    AltRight,
    Backspace,
    CapsLock,
    ContextMenu,
    ControlLeft,
    ControlRight,
    Enter,
    SuperLeft,
    SuperRight,
    ShiftLeft,
    ShiftRight,
    Space,
    Tab,
    Convert,
    KanaMode,
    Lang1,
    Lang2,
    Lang3,
    Lang4,
    Lang5,
    NonConvert,
    Delete,
    End,
    Help,
    Home,
    Insert,
    PageDown,
    PageUp,
    ArrowDown,
    ArrowLeft,
    ArrowRight,
    ArrowUp,
    NumLock,
    Numpad0,
    Numpad1,
    Numpad2,
    Numpad3,
    Numpad4,
    Numpad5,
    Numpad6,
    Numpad7,
    Numpad8,
    Numpad9,
    NumpadAdd,
    NumpadBackspace,
    NumpadClear,
    NumpadClearEntry,
    NumpadComma,
    NumpadDecimal,
    NumpadDivide,
    NumpadEnter,
    NumpadEqual,
    NumpadHash,
    NumpadMemoryAdd,
    NumpadMemoryClear,
    NumpadMemoryRecall,
    NumpadMemoryStore,
    NumpadMemorySubtract,
    NumpadMultiply,
    NumpadParenLeft,
    NumpadParenRight,
    NumpadStar,
    NumpadSubtract,
    Escape,
    Fn,
    FnLock,
    PrintScreen,
    ScrollLock,
    Pause,
    BrowserBack,
    BrowserFavorites,
    BrowserForward,
    BrowserHome,
    BrowserRefresh,
    BrowserSearch,
    BrowserStop,
    Eject,
    LaunchApp1,
    LaunchApp2,
    LaunchMail,
    MediaPlayPause,
    MediaSelect,
    MediaStop,
    MediaTrackNext,
    MediaTrackPrevious,
    Power,
    Sleep,
    AudioVolumeDown,
    AudioVolumeMute,
    AudioVolumeUp,
    WakeUp,
    Meta,
    Hyper,
    Turbo,
    Abort,
    Resume,
    Suspend,
    Again,
    Copy,
    Cut,
    Find,
    Open,
    Paste,
    Props,
    Select,
    Undo,
    Hiragana,
    Katakana,
    F1,
    F2,
    F3,
    F4,
    F5,
    F6,
    F7,
    F8,
    F9,
    F10,
    F11,
    F12,
    F13,
    F14,
    F15,
    F16,
    F17,
    F18,
    F19,
    F20,
    F21,
    F22,
    F23,
    F24,
    F25,
    F26,
    F27,
    F28,
    F29,
    F30,
    F31,
    F32,
    F33,
    F34,
    F35,
}


/// Whether no key appears twice.
pub open spec fn unique_keys<K>(entries: Seq<(K, ButtonState)>) -> bool {
    forall|i: int, j: int| 0 <= i < j < entries.len() ==> (#[trigger] entries[i]).0 != (#[trigger] entries[j]).0
}

/// The state of `key` among the entries: its entry's state, or unpressed
/// where it has none.
pub open spec fn state_in<K>(entries: Seq<(K, ButtonState)>, key: K) -> ButtonState {
    if exists|i: int| 0 <= i < entries.len() && (#[trigger] entries[i]).0 == key {
        entries[choose|i: int| 0 <= i < entries.len() && (#[trigger] entries[i]).0 == key].1
    } else {
        ButtonState::Unpressed
    }
}

proof fn lemma_state_at<K>(entries: Seq<(K, ButtonState)>, i: int)
    requires
        unique_keys(entries),
        0 <= i < entries.len(),
    ensures
        state_in(entries, entries[i].0) == entries[i].1,
{
    let key = entries[i].0;
    let j = choose|j: int| 0 <= j < entries.len() && (#[trigger] entries[j]).0 == key;
    assert(0 <= j < entries.len() && entries[j].0 == key);
    if j < i {
        assert(entries[j].0 != entries[i].0);
    } else if i < j {
        assert(entries[i].0 != entries[j].0);
    }
}

proof fn lemma_state_absent<K>(entries: Seq<(K, ButtonState)>, key: K)
    requires
        forall|i: int| 0 <= i < entries.len() ==> (#[trigger] entries[i]).0 != key,
    ensures
        state_in(entries, key) == ButtonState::Unpressed,
{
}

/// Whether `found` is where `key` stands among the entries.
pub open spec fn found_at<K>(entries: Seq<(K, ButtonState)>, key: K, found: Option<usize>) -> bool {
    match found {
        Some(i) => i < entries.len() && entries[i as int].0 == key,
        None => forall|i: int| 0 <= i < entries.len() ==> (#[trigger] entries[i]).0 != key,
    }
}

/// Moves `key`, found at `found`, to the state that a press or a release
/// leads to; a key with no entry gets one.
fn update_entry<K: Copy>(entries: &mut Vec<(K, ButtonState)>, found: Option<usize>, key: K, pressed: bool)
    requires
        unique_keys(old(entries)@),
        found_at(old(entries)@, key, found),
    ensures
        unique_keys(final(entries)@),
        forall|k: K|
            #[trigger] state_in(final(entries)@, k) == if k == key {
                transition(state_in(old(entries)@, key), pressed)
            } else {
                state_in(old(entries)@, k)
            },
{
    let ghost old_entries = entries@;
    match found {
        Some(i) => {
            let s = entries[i].1;
            let next = next_state(s, pressed);
            entries.set(i, (key, next));
            proof {
                lemma_state_at(old_entries, i as int);
                assert forall|a: int, b: int| 0 <= a < b < entries@.len() implies (#[trigger] entries@[a]).0
                    != (#[trigger] entries@[b]).0 by {
                    assert(old_entries[a].0 == entries@[a].0);
                    assert(old_entries[b].0 == entries@[b].0);
                }
                assert forall|k: K| #[trigger] state_in(entries@, k) == if k == key {
                    transition(state_in(old_entries, key), pressed)
                } else {
                    state_in(old_entries, k)
                } by {
                    if k == key {
                        lemma_state_at(entries@, i as int);
                    } else {
                        if exists|j: int| 0 <= j < old_entries.len() && (#[trigger] old_entries[j]).0 == k {
                            let j = choose|j: int| 0 <= j < old_entries.len() && (#[trigger] old_entries[j]).0 == k;
                            lemma_state_at(old_entries, j);
                            lemma_state_at(entries@, j);
                        } else {
                            assert forall|j: int| 0 <= j < entries@.len() implies (#[trigger] entries@[j]).0 != k by {
                                assert(old_entries[j].0 == entries@[j].0);
                            }
                        }
                    }
                }
            }
        },
        None => {
            let next = next_state(ButtonState::Unpressed, pressed);
            entries.push((key, next));
            proof {
                let n = old_entries.len() as int;
                lemma_state_absent(old_entries, key);
                assert forall|a: int, b: int| 0 <= a < b < entries@.len() implies (#[trigger] entries@[a]).0
                    != (#[trigger] entries@[b]).0 by {
                    if b == n {
                        assert(old_entries[a].0 != key);
                    } else {
                        assert(old_entries[a] == entries@[a] && old_entries[b] == entries@[b]);
                    }
                }
                assert forall|k: K| #[trigger] state_in(entries@, k) == if k == key {
                    transition(state_in(old_entries, key), pressed)
                } else {
                    state_in(old_entries, k)
                } by {
                    if k == key {
                        lemma_state_at(entries@, n);
                    } else {
                        if exists|j: int| 0 <= j < old_entries.len() && (#[trigger] old_entries[j]).0 == k {
                            let j = choose|j: int| 0 <= j < old_entries.len() && (#[trigger] old_entries[j]).0 == k;
                            lemma_state_at(old_entries, j);
                            assert(entries@[j] == old_entries[j]);
                            lemma_state_at(entries@, j);
                        } else {
                            assert forall|j: int| 0 <= j < entries@.len() implies (#[trigger] entries@[j]).0 != k by {
                                if j < n {
                                    assert(old_entries[j] == entries@[j]);
                                }
                            }
                        }
                    }
                }
            }
        },
    }
}

/// The entries at the start of the next frame: every state flushed, and the
/// keys that end up unpressed dropped.
fn flush_entries<K: Copy>(entries: &Vec<(K, ButtonState)>) -> (r: Vec<(K, ButtonState)>)
    requires
        unique_keys(entries@),
    ensures
        unique_keys(r@),
        forall|k: K| #[trigger] state_in(r@, k) == flushed(state_in(entries@, k)),
{
    let mut r: Vec<(K, ButtonState)> = Vec::new();
    let mut i: usize = 0;
    let ghost src: Seq<int> = Seq::empty();
    while i < entries.len()
        invariant
            0 <= i <= entries@.len(),
            unique_keys(entries@),
            src.len() == r@.len(),
            forall|a: int| 0 <= a < r@.len() ==> 0 <= #[trigger] src[a] < i,
            forall|a: int, b: int| 0 <= a < b < r@.len() ==> #[trigger] src[a] < #[trigger] src[b],
            forall|a: int|
                0 <= a < r@.len() ==> (#[trigger] r@[a]).0 == entries@[src[a]].0 && r@[a].1 == flushed(
                    entries@[src[a]].1,
                ) && r@[a].1 != ButtonState::Unpressed,
            forall|j: int|
                0 <= j < i && flushed(#[trigger] entries@[j].1) != ButtonState::Unpressed ==> exists|a: int|
                    0 <= a < r@.len() && #[trigger] src[a] == j,
        decreases entries@.len() - i,
    {
        let (k, s) = entries[i];
        let f = flush_state(s);
        if f != ButtonState::Unpressed {
            proof {
                let a = r@.len() as int;
                assert forall|j: int|
                    0 <= j < i + 1 && flushed(#[trigger] entries@[j].1) != ButtonState::Unpressed implies exists|b: int|
                    0 <= b < a + 1 && #[trigger] src.push(i as int)[b] == j by {
                    if j < i {
                        let b = choose|b: int| 0 <= b < a && #[trigger] src[b] == j;
                        assert(src.push(i as int)[b] == j);
                    } else {
                        assert(src.push(i as int)[a] == j);
                    }
                }
                src = src.push(i as int);
            }
            r.push((k, f));
        } else {
            proof {
                assert forall|j: int|
                    0 <= j < i + 1 && flushed(#[trigger] entries@[j].1) != ButtonState::Unpressed implies exists|b: int|
                    0 <= b < r@.len() && #[trigger] src[b] == j by {
                    if j < i {
                    } else {
                        assert(false);
                    }
                }
            }
        }
        i = i + 1;
    }
    proof {
        assert forall|a: int, b: int| 0 <= a < b < r@.len() implies (#[trigger] r@[a]).0 != (#[trigger] r@[b]).0 by {
            assert(src[a] < src[b]);
        }
        assert forall|k: K| #[trigger] state_in(r@, k) == flushed(state_in(entries@, k)) by {
            if exists|j: int| 0 <= j < entries@.len() && (#[trigger] entries@[j]).0 == k {
                let j = choose|j: int| 0 <= j < entries@.len() && (#[trigger] entries@[j]).0 == k;
                lemma_state_at(entries@, j);
                if flushed(entries@[j].1) != ButtonState::Unpressed {
                    let a = choose|a: int| 0 <= a < r@.len() && #[trigger] src[a] == j;
                    lemma_state_at(r@, a);
                } else {
                    assert forall|a: int| 0 <= a < r@.len() implies (#[trigger] r@[a]).0 != k by {
                        if r@[a].0 == k {
                            let ja = src[a];
                            if ja < j {
                                assert(entries@[ja].0 != entries@[j].0);
                            } else if j < ja {
                                assert(entries@[j].0 != entries@[ja].0);
                            }
                        }
                    }
                }
            } else {
                assert forall|a: int| 0 <= a < r@.len() implies (#[trigger] r@[a]).0 != k by {
                    assert(entries@[src[a]].0 == r@[a].0);
                }
            }
        }
    }
    r
}


/// The key whose entry stands at `found`, where it is the key looked for.
fn find_key(entries: &Vec<(Key, ButtonState)>, key: Key) -> (found: Option<usize>)
    ensures
        found_at(entries@, key, found),
{
    let mut i: usize = 0;
    while i < entries.len()
        invariant
            0 <= i <= entries@.len(),
            forall|j: int| 0 <= j < i ==> (#[trigger] entries@[j]).0 != key,
        decreases entries@.len() - i,
    {
        if entries[i].0 == key {
            return Some(i);
        }
        i = i + 1;
    }
    None
}

/// The button whose entry stands at `found`, where it is the button looked
/// for.
fn find_button(entries: &Vec<(MouseButton, ButtonState)>, button: MouseButton) -> (found: Option<usize>)
    ensures
        found_at(entries@, button, found),
{
    let mut i: usize = 0;
    while i < entries.len()
        invariant
            0 <= i <= entries@.len(),
            forall|j: int| 0 <= j < i ==> (#[trigger] entries@[j]).0 != button,
        decreases entries@.len() - i,
    {
        if entries[i].0 == button {
            return Some(i);
        }
        i = i + 1;
    }
    None
}

/// The state of `key` in the entries.
fn lookup_key(entries: &Vec<(Key, ButtonState)>, key: Key) -> (s: ButtonState)
    requires
        unique_keys(entries@),
    ensures
        s == state_in(entries@, key),
{
    match find_key(entries, key) {
        Some(i) => {
            proof {
                lemma_state_at(entries@, i as int);
            }
            entries[i].1
        },
        None => ButtonState::Unpressed,
    }
}

/// What can name a key: a character, a key code, a key code at a location,
/// a scan code, or a key itself.
pub trait IntoKey {
    /// The key that the value names.
    spec fn key_spec(&self) -> Key;

    /// The key that the value names.
    fn into_key(self) -> (k: Key)
        ensures
            k == self.key_spec(),
    ;
}

impl IntoKey for Key {
    open spec fn key_spec(&self) -> Key {
        *self
    }

    fn into_key(self) -> (k: Key) {
        self
    }
}

impl IntoKey for char {
    open spec fn key_spec(&self) -> Key {
        Key::KeyCode { keycode: KeyCode::Char(*self), location: KeyLocation::Standard }
    }

    fn into_key(self) -> (k: Key) {
        Key::from(self)
    }
}

impl IntoKey for KeyCode {
    open spec fn key_spec(&self) -> Key {
        Key::KeyCode { keycode: *self, location: KeyLocation::Standard }
    }

    fn into_key(self) -> (k: Key) {
        Key::from(self)
    }
}

impl IntoKey for (KeyCode, KeyLocation) {
    open spec fn key_spec(&self) -> Key {
        Key::KeyCode { keycode: self.0, location: self.1 }
    }

    fn into_key(self) -> (k: Key) {
        Key::from(self)
    }
}

impl IntoKey for ScanCode {
    open spec fn key_spec(&self) -> Key {
        Key::ScanCode(*self)
    }

    fn into_key(self) -> (k: Key) {
        Key::from(self)
    }
}

impl core::convert::From<char> for Key {
    fn from(c: char) -> (k: Key) {
        Key::KeyCode { keycode: KeyCode::Char(c), location: KeyLocation::Standard }
    }
}

impl vstd::std_specs::convert::FromSpecImpl<char> for Key {
    open spec fn obeys_from_spec() -> bool {
        true
    }

    open spec fn from_spec(c: char) -> Key {
        Key::KeyCode { keycode: KeyCode::Char(c), location: KeyLocation::Standard }
    }
}

impl core::convert::From<KeyCode> for Key {
    fn from(keycode: KeyCode) -> (k: Key) {
        Key::KeyCode { keycode, location: KeyLocation::Standard }
    }
}

impl vstd::std_specs::convert::FromSpecImpl<KeyCode> for Key {
    open spec fn obeys_from_spec() -> bool {
        true
    }

    open spec fn from_spec(keycode: KeyCode) -> Key {
        Key::KeyCode { keycode, location: KeyLocation::Standard }
    }
}

impl core::convert::From<(KeyCode, KeyLocation)> for Key {
    fn from(t: (KeyCode, KeyLocation)) -> (k: Key) {
        Key::KeyCode { keycode: t.0, location: t.1 }
    }
}

impl vstd::std_specs::convert::FromSpecImpl<(KeyCode, KeyLocation)> for Key {
    open spec fn obeys_from_spec() -> bool {
        true
    }

    open spec fn from_spec(t: (KeyCode, KeyLocation)) -> Key {
        Key::KeyCode { keycode: t.0, location: t.1 }
    }
}

impl core::convert::From<ScanCode> for Key {
    fn from(scancode: ScanCode) -> (k: Key) {
        Key::ScanCode(scancode)
    }
}

impl vstd::std_specs::convert::FromSpecImpl<ScanCode> for Key {
    open spec fn obeys_from_spec() -> bool {
        true
    }

    open spec fn from_spec(scancode: ScanCode) -> Key {
        Key::ScanCode(scancode)
    }
}

/// What a key event says the key means: a character it types, a named key,
/// or neither (an unidentified or a dead key).
#[derive(Debug, Clone, Copy, PartialEq, Eq, Hash, Structural)]
pub enum LogicalKey {
    Character(char),
    Named(KeyCode),
    Unidentified,
    Dead,
}

/// The message of the error for a key the window system did not identify.
pub open spec fn unidentified_key_message() -> Seq<char> {
    seq!['u', 'n', 'i', 'd', 'e', 'n', 't', 'i', 'f', 'i', 'e', 'd', ' ', 'k', 'e', 'y', 's', ' ', 'a', 'r',
        'e', ' ', 'n', 'o', 't', ' ', 's', 'u', 'p', 'p', 'o', 'r', 't', 'e', 'd']
}

/// The message of the error for a dead key.
pub open spec fn dead_key_message() -> Seq<char> {
    seq!['d', 'e', 'a', 'd', ' ', 'k', 'e', 'y', 's', ' ', 'a', 'r', 'e', ' ', 'n', 'o', 't', ' ', 's', 'u',
        'p', 'p', 'o', 'r', 't', 'e', 'd']
}

impl core::convert::TryFrom<LogicalKey> for KeyCode {
    type Error = AgeError;

    /// The key code of a key event's meaning: the character typed or the
    /// named key; unidentified and dead keys have none.
    fn try_from(key: LogicalKey) -> (r: Result<KeyCode, AgeError>)
        ensures
            key matches LogicalKey::Character(c) ==> r == Ok::<KeyCode, AgeError>(KeyCode::Char(c)),
            key matches LogicalKey::Named(k) ==> r == Ok::<KeyCode, AgeError>(k),
            key is Unidentified ==> (r matches Err(e) && e.message_spec() == unidentified_key_message()),
            key is Dead ==> (r matches Err(e) && e.message_spec() == dead_key_message()),
    {
        match key {
            LogicalKey::Named(k) => Ok(k),
            LogicalKey::Character(c) => Ok(KeyCode::Char(c)),
            LogicalKey::Unidentified => {
                let msg = "unidentified keys are not supported";
                proof {
                    reveal_strlit("unidentified keys are not supported");
                }
                Err(AgeError::new(msg))
            },
            LogicalKey::Dead => {
                let msg = "dead keys are not supported";
                proof {
                    reveal_strlit("dead keys are not supported");
                }
                Err(AgeError::new(msg))
            },
        }
    }
}

impl vstd::std_specs::convert::TryFromSpecImpl<LogicalKey> for KeyCode {
    /// No value of `AgeError` can be written in a specification (its message
    /// is a `String`), so the conversion is described by the `ensures` of
    /// `try_from` instead.
    open spec fn obeys_try_from_spec() -> bool {
        false
    }

    open spec fn try_from_spec(key: LogicalKey) -> Result<KeyCode, AgeError> {
        arbitrary()
    }
}

/// The bit of the modifier state that a modifier key at a location sets:
/// left and right Alt, Control, Shift and Super, in that order from bit 0.
pub open spec fn modifier_bit(keycode: KeyCode, location: KeyLocation) -> Option<u8> {
    match (keycode, location) {
        (KeyCode::Alt, KeyLocation::Left) => Some(0u8),
        (KeyCode::Alt, KeyLocation::Right) => Some(1u8),
        (KeyCode::Control, KeyLocation::Left) => Some(2u8),
        (KeyCode::Control, KeyLocation::Right) => Some(3u8),
        (KeyCode::Shift, KeyLocation::Left) => Some(4u8),
        (KeyCode::Shift, KeyLocation::Right) => Some(5u8),
        (KeyCode::Super, KeyLocation::Left) => Some(6u8),
        (KeyCode::Super, KeyLocation::Right) => Some(7u8),
        _ => None,
    }
}

/// The modifier state after a modifier key event: its bit set on a press,
/// cleared on a release; other keys leave the state as it is.
pub open spec fn modifiers_after(m: u8, keycode: KeyCode, location: KeyLocation, pressed: bool) -> u8 {
    match modifier_bit(keycode, location) {
        Some(b) => if pressed {
            m | (1u8 << b)
        } else {
            m & !(1u8 << b)
        },
        None => m,
    }
}

/// The modifier bits after a run of key events `(logical key, location,
/// pressed, repeat)` on a keyboard that had none set: each event changes
/// them as `on_keyboard_input` does.
pub open spec fn modifiers_after_events(events: Seq<(LogicalKey, KeyLocation, bool, bool)>) -> u8
    decreases events.len(),
{
    if events.len() == 0 {
        0u8
    } else {
        let m = modifiers_after_events(events.drop_last());
        let (key, location, pressed, repeat) = events.last();
        if repeat {
            m
        } else {
            match key {
                LogicalKey::Named(k) => modifiers_after(m, k, location, pressed),
                _ => m,
            }
        }
    }
}

/// Whether, after a run of key events, the named key `keycode` at
/// `location` is held: its last event that is not a repeat was a press.
pub open spec fn modifier_held(
    events: Seq<(LogicalKey, KeyLocation, bool, bool)>,
    keycode: KeyCode,
    location: KeyLocation,
) -> bool
    decreases events.len(),
{
    if events.len() == 0 {
        false
    } else {
        let (key, loc, pressed, repeat) = events.last();
        if !repeat && key == LogicalKey::Named(keycode) && loc == location {
            pressed
        } else {
            modifier_held(events.drop_last(), keycode, location)
        }
    }
}

/// Setting or clearing bit `c` changes bit `b` only where they are the same.
proof fn lemma_bit_after(m: u8, b: u8, c: u8)
    by (bit_vector)
    requires
        b < 8,
        c < 8,
    ensures
        b == c ==> ((m | (1u8 << c)) >> b) & 1u8 == 1u8,
        b == c ==> ((m & !(1u8 << c)) >> b) & 1u8 == 0u8,
        b != c ==> ((m | (1u8 << c)) >> b) & 1u8 == (m >> b) & 1u8,
        b != c ==> ((m & !(1u8 << c)) >> b) & 1u8 == (m >> b) & 1u8,
{
}

/// After a run of key events, the bit of a modifier key is set exactly when
/// that key is held.
proof fn lemma_modifier_bits(
    events: Seq<(LogicalKey, KeyLocation, bool, bool)>,
    keycode: KeyCode,
    location: KeyLocation,
    b: u8,
)
    requires
        modifier_bit(keycode, location) == Some(b),
    ensures
        (((modifiers_after_events(events) >> b) & 1u8) == 1u8) == modifier_held(events, keycode, location),
    decreases events.len(),
{
    assert(b < 8);
    if events.len() == 0 {
        assert((0u8 >> b) & 1u8 == 0u8) by (bit_vector);
    } else {
        lemma_modifier_bits(events.drop_last(), keycode, location, b);
        let m = modifiers_after_events(events.drop_last());
        let (key, loc, pressed, repeat) = events.last();
        if !repeat {
            match key {
                LogicalKey::Named(k) => {
                    match modifier_bit(k, loc) {
                        Some(c) => {
                            lemma_bit_after(m, b, c);
                            if c == b {
                                assert(k == keycode && loc == location);
                            }
                        },
                        None => {},
                    }
                },
                _ => {},
            }
        }
    }
}

/// Which bits each modifier mask holds.
proof fn lemma_masks(m: u8)
    by (bit_vector)
    ensures
        (m & 11u8 != 0u8) == ((m >> 0u8) & 1u8 == 1u8 || (m >> 1u8) & 1u8 == 1u8 || (m >> 3u8) & 1u8 == 1u8),
        (m & 44u8 != 0u8) == ((m >> 2u8) & 1u8 == 1u8 || (m >> 3u8) & 1u8 == 1u8 || (m >> 5u8) & 1u8 == 1u8),
        (m & 176u8 != 0u8) == ((m >> 4u8) & 1u8 == 1u8 || (m >> 5u8) & 1u8 == 1u8 || (m >> 7u8) & 1u8 == 1u8),
        (m & 192u8 != 0u8) == ((m >> 6u8) & 1u8 == 1u8 || (m >> 7u8) & 1u8 == 1u8),
{
}

fn modifier_bit_of(keycode: KeyCode, location: KeyLocation) -> (b: Option<u8>)
    ensures
        b == modifier_bit(keycode, location),
{
    match (keycode, location) {
        (KeyCode::Alt, KeyLocation::Left) => Some(Keyboard::ALT_SHIFT),
        (KeyCode::Alt, KeyLocation::Right) => Some(Keyboard::ALT_SHIFT + 1),
        (KeyCode::Control, KeyLocation::Left) => Some(Keyboard::CTRL_SHIFT),
        (KeyCode::Control, KeyLocation::Right) => Some(Keyboard::CTRL_SHIFT + 1),
        (KeyCode::Shift, KeyLocation::Left) => Some(Keyboard::SHIFT_SHIFT),
        (KeyCode::Shift, KeyLocation::Right) => Some(Keyboard::SHIFT_SHIFT + 1),
        (KeyCode::Super, KeyLocation::Left) => Some(Keyboard::SUPER_SHIFT),
        (KeyCode::Super, KeyLocation::Right) => Some(Keyboard::SUPER_SHIFT + 1),
        _ => None,
    }
}

/// The keyboard: the state of each key within the frame, and which modifier
/// keys are down.
pub struct Keyboard {
    key_state: Vec<(Key, ButtonState)>,
    modifier_state: u8,
}

/// The key at the physical position of a key event, where it has one.
pub open spec fn physical_key_of(physical_key: Option<ScanCode>) -> Option<Key> {
    match physical_key {
        Some(sc) => Some(Key::ScanCode(sc)),
        None => None,
    }
}

/// The key that a key event's logical meaning names, at its location.
pub open spec fn logical_key_of(logical_key: LogicalKey, location: KeyLocation) -> Option<Key> {
    match logical_key {
        LogicalKey::Character(c) => Some(Key::KeyCode { keycode: KeyCode::Char(c), location }),
        LogicalKey::Named(k) => Some(Key::KeyCode { keycode: k, location }),
        _ => None,
    }
}

impl Keyboard {
    pub const ALT_SHIFT: u8 = 0u8;
    pub const CTRL_SHIFT: u8 = 2u8;
    pub const SHIFT_SHIFT: u8 = 4u8;
    pub const SUPER_SHIFT: u8 = 6u8;
    /// `11 << ALT_SHIFT`: bits 0, 1 and 3.
    pub const ALT_MASK: u8 = 11u8;
    /// `11 << CTRL_SHIFT`: bits 2, 3 and 5.
    pub const CTRL_MASK: u8 = 44u8;
    /// `11 << SHIFT_SHIFT`: bits 4, 5 and 7.
    pub const SHIFT_MASK: u8 = 176u8;
    /// `11 << SUPER_SHIFT` in 8 bits: bits 6 and 7.
    pub const SUPER_MASK: u8 = 192u8;

    #[verifier::type_invariant]
    closed spec fn inv(&self) -> bool {
        unique_keys(self.key_state@)
    }

    /// The state of `key` within the frame.
    pub closed spec fn state(&self, key: Key) -> ButtonState {
        state_in(self.key_state@, key)
    }

    /// The modifier bits.
    pub closed spec fn modifiers(&self) -> u8 {
        self.modifier_state
    }

    /// A keyboard with no key down.
    pub fn new() -> (k: Self)
        ensures
            forall|key: Key| #[trigger] k.state(key) == ButtonState::Unpressed,
            k.modifiers() == 0,
    {
        Keyboard { key_state: Vec::new(), modifier_state: 0 }
    }

    /// Whether the key was pressed during this frame.
    pub fn key_pressed<K: IntoKey>(&self, key: K) -> (b: bool)
        ensures
            b == (self.state(key.key_spec()) == ButtonState::Pressed),
    {
        proof {
            use_type_invariant(self);
        }
        lookup_key(&self.key_state, key.into_key()) == ButtonState::Pressed
    }

    /// Whether the key was pressed before this frame and is still down.
    pub fn key_held<K: IntoKey>(&self, key: K) -> (b: bool)
        ensures
            b == (self.state(key.key_spec()) == ButtonState::Held),
    {
        proof {
            use_type_invariant(self);
        }
        lookup_key(&self.key_state, key.into_key()) == ButtonState::Held
    }

    /// Whether the key was released during this frame.
    pub fn key_released<K: IntoKey>(&self, key: K) -> (b: bool)
        ensures
            b == (self.state(key.key_spec()) == ButtonState::Released),
    {
        proof {
            use_type_invariant(self);
        }
        lookup_key(&self.key_state, key.into_key()) == ButtonState::Released
    }

    /// Whether a modifier bit of `ALT_MASK` is set.
    pub fn alt_key(&self) -> (b: bool)
        ensures
            b == (self.modifiers() & Keyboard::ALT_MASK != 0),
    {
        self.modifier_state & Self::ALT_MASK != 0
    }

    /// Whether a modifier bit of `CTRL_MASK` is set.
    pub fn control_key(&self) -> (b: bool)
        ensures
            b == (self.modifiers() & Keyboard::CTRL_MASK != 0),
    {
        self.modifier_state & Self::CTRL_MASK != 0
    }

    /// Whether a modifier bit of `SHIFT_MASK` is set.
    pub fn shift_key(&self) -> (b: bool)
        ensures
            b == (self.modifiers() & Keyboard::SHIFT_MASK != 0),
    {
        self.modifier_state & Self::SHIFT_MASK != 0
    }

    /// Whether a modifier bit of `SUPER_MASK` is set.
    pub fn super_key(&self) -> (b: bool)
        ensures
            b == (self.modifiers() & Keyboard::SUPER_MASK != 0),
    {
        self.modifier_state & Self::SUPER_MASK != 0
    }

    /// After a run of key events on a new keyboard (the modifier bits that
    /// `on_keyboard_input` leaves), the Alt query is true exactly when a
    /// left or right Alt key is held, as long as right Control is not held:
    /// its bit lies under the Alt mask too.
    pub proof fn lemma_alt_key(k: &Keyboard, events: Seq<(LogicalKey, KeyLocation, bool, bool)>)
        requires
            k.modifiers() == modifiers_after_events(events),
            !modifier_held(events, KeyCode::Control, KeyLocation::Right),
        ensures
            (k.modifiers() & Keyboard::ALT_MASK != 0) == (modifier_held(events, KeyCode::Alt, KeyLocation::Left)
                || modifier_held(events, KeyCode::Alt, KeyLocation::Right)),
    {
        lemma_masks(k.modifiers());
        lemma_modifier_bits(events, KeyCode::Alt, KeyLocation::Left, 0u8);
        lemma_modifier_bits(events, KeyCode::Alt, KeyLocation::Right, 1u8);
        lemma_modifier_bits(events, KeyCode::Control, KeyLocation::Right, 3u8);
    }

    /// After a run of key events on a new keyboard, the Control query is
    /// true exactly when a left or right Control key is held, as long as
    /// right Shift is not held: its bit lies under the Control mask too.
    pub proof fn lemma_control_key(k: &Keyboard, events: Seq<(LogicalKey, KeyLocation, bool, bool)>)
        requires
            k.modifiers() == modifiers_after_events(events),
            !modifier_held(events, KeyCode::Shift, KeyLocation::Right),
        ensures
            (k.modifiers() & Keyboard::CTRL_MASK != 0) == (modifier_held(events, KeyCode::Control, KeyLocation::Left)
                || modifier_held(events, KeyCode::Control, KeyLocation::Right)),
    {
        lemma_masks(k.modifiers());
        lemma_modifier_bits(events, KeyCode::Control, KeyLocation::Left, 2u8);
        lemma_modifier_bits(events, KeyCode::Control, KeyLocation::Right, 3u8);
        lemma_modifier_bits(events, KeyCode::Shift, KeyLocation::Right, 5u8);
    }

    /// After a run of key events on a new keyboard, the Shift query is true
    /// exactly when a left or right Shift key is held, as long as right
    /// Super is not held: its bit lies under the Shift mask too.
    pub proof fn lemma_shift_key(k: &Keyboard, events: Seq<(LogicalKey, KeyLocation, bool, bool)>)
        requires
            k.modifiers() == modifiers_after_events(events),
            !modifier_held(events, KeyCode::Super, KeyLocation::Right),
        ensures
            (k.modifiers() & Keyboard::SHIFT_MASK != 0) == (modifier_held(events, KeyCode::Shift, KeyLocation::Left)
                || modifier_held(events, KeyCode::Shift, KeyLocation::Right)),
    {
        lemma_masks(k.modifiers());
        lemma_modifier_bits(events, KeyCode::Shift, KeyLocation::Left, 4u8);
        lemma_modifier_bits(events, KeyCode::Shift, KeyLocation::Right, 5u8);
        lemma_modifier_bits(events, KeyCode::Super, KeyLocation::Right, 7u8);
    }

    /// After a run of key events on a new keyboard, the Super query is true
    /// exactly when a left or right Super key is held.
    pub proof fn lemma_super_key(k: &Keyboard, events: Seq<(LogicalKey, KeyLocation, bool, bool)>)
        requires
            k.modifiers() == modifiers_after_events(events),
        ensures
            (k.modifiers() & Keyboard::SUPER_MASK != 0) == (modifier_held(events, KeyCode::Super, KeyLocation::Left)
                || modifier_held(events, KeyCode::Super, KeyLocation::Right)),
    {
        lemma_masks(k.modifiers());
        lemma_modifier_bits(events, KeyCode::Super, KeyLocation::Left, 6u8);
        lemma_modifier_bits(events, KeyCode::Super, KeyLocation::Right, 7u8);
    }

    /// Whether `new` is `old` after the key event: what `on_keyboard_input`
    /// ensures of it.
    pub open spec fn input_recorded(
        old: Keyboard,
        new: Keyboard,
        physical_key: Option<ScanCode>,
        logical_key: LogicalKey,
        location: KeyLocation,
        pressed: bool,
        repeat: bool,
    ) -> bool {
        &&& repeat ==> forall|k: Key| #[trigger] new.state(k) == old.state(k)
        &&& repeat ==> new.modifiers() == old.modifiers()
        &&& !repeat ==> forall|k: Key|
            #[trigger] new.state(k) == if Some(k) == physical_key_of(physical_key) || Some(k) == logical_key_of(
                logical_key,
                location,
            ) {
                transition(old.state(k), pressed)
            } else {
                old.state(k)
            }
        &&& !repeat ==> new.modifiers() == match logical_key {
            LogicalKey::Named(k) => modifiers_after(old.modifiers(), k, location, pressed),
            _ => old.modifiers(),
        }
    }

    /// A character key event that is not a repeat moves the character's key
    /// at the event's own location on by the press or release, and the key
    /// at its physical position too; every key at another location, every
    /// other key at that location, and every other physical key stay as they
    /// were.
    pub proof fn lemma_character_at_location(
        old: Keyboard,
        new: Keyboard,
        physical_key: Option<ScanCode>,
        c: char,
        location: KeyLocation,
        pressed: bool,
    )
        requires
            Self::input_recorded(old, new, physical_key, LogicalKey::Character(c), location, pressed, false),
        ensures
            new.state(Key::KeyCode { keycode: KeyCode::Char(c), location }) == transition(
                old.state(Key::KeyCode { keycode: KeyCode::Char(c), location }),
                pressed,
            ),
            forall|keycode: KeyCode, other: KeyLocation|
                other != location ==> #[trigger] new.state(Key::KeyCode { keycode, location: other }) == old.state(
                    Key::KeyCode { keycode, location: other },
                ),
            forall|keycode: KeyCode|
                keycode != KeyCode::Char(c) ==> #[trigger] new.state(Key::KeyCode { keycode, location }) == old.state(
                    Key::KeyCode { keycode, location },
                ),
            forall|sc: ScanCode|
                #[trigger] new.state(Key::ScanCode(sc)) == if physical_key == Some(sc) {
                    transition(old.state(Key::ScanCode(sc)), pressed)
                } else {
                    old.state(Key::ScanCode(sc))
                },
            new.modifiers() == old.modifiers(),
    {
        assert(new.state(Key::KeyCode { keycode: KeyCode::Char(c), location }) == transition(
            old.state(Key::KeyCode { keycode: KeyCode::Char(c), location }),
            pressed,
        ));
    }

    /// A named key event that is not a repeat moves the named key at the
    /// event's own location on by the press or release, and the key at its
    /// physical position too; every key at another location, every other key
    /// at that location, and every other physical key stay as they were.
    pub proof fn lemma_named_at_location(
        old: Keyboard,
        new: Keyboard,
        physical_key: Option<ScanCode>,
        named: KeyCode,
        location: KeyLocation,
        pressed: bool,
    )
        requires
            Self::input_recorded(old, new, physical_key, LogicalKey::Named(named), location, pressed, false),
        ensures
            new.state(Key::KeyCode { keycode: named, location }) == transition(
                old.state(Key::KeyCode { keycode: named, location }),
                pressed,
            ),
            forall|keycode: KeyCode, other: KeyLocation|
                other != location ==> #[trigger] new.state(Key::KeyCode { keycode, location: other }) == old.state(
                    Key::KeyCode { keycode, location: other },
                ),
            forall|keycode: KeyCode|
                keycode != named ==> #[trigger] new.state(Key::KeyCode { keycode, location }) == old.state(
                    Key::KeyCode { keycode, location },
                ),
            forall|sc: ScanCode|
                #[trigger] new.state(Key::ScanCode(sc)) == if physical_key == Some(sc) {
                    transition(old.state(Key::ScanCode(sc)), pressed)
                } else {
                    old.state(Key::ScanCode(sc))
                },
    {
        assert(new.state(Key::KeyCode { keycode: named, location }) == transition(
            old.state(Key::KeyCode { keycode: named, location }),
            pressed,
        ));
    }

    /// Records a key event: the key at its physical position (where it has
    /// one) and the key it means at its location each move on by the press
    /// or release, and a modifier key sets or clears its bit. Repeated events
    /// of a held key are ignored.
    pub fn on_keyboard_input(
        &mut self,
        physical_key: Option<ScanCode>,
        logical_key: LogicalKey,
        location: KeyLocation,
        pressed: bool,
        repeat: bool,
    )
        ensures
            repeat ==> forall|k: Key| #[trigger] final(self).state(k) == old(self).state(k),
            repeat ==> final(self).modifiers() == old(self).modifiers(),
            !repeat ==> forall|k: Key|
                #[trigger] final(self).state(k) == if Some(k) == physical_key_of(physical_key)
                    || Some(k) == logical_key_of(logical_key, location) {
                    transition(old(self).state(k), pressed)
                } else {
                    old(self).state(k)
                },
            !repeat ==> final(self).modifiers() == match logical_key {
                LogicalKey::Named(k) => modifiers_after(old(self).modifiers(), k, location, pressed),
                _ => old(self).modifiers(),
            },
            Self::input_recorded(*old(self), *final(self), physical_key, logical_key, location, pressed, repeat),
    {
        if repeat {
            return;
        }
        proof {
            use_type_invariant(&*self);
        }
        let mut states: Vec<(Key, ButtonState)> = Vec::new();
        std::mem::swap(&mut states, &mut self.key_state);
        if let Some(scancode) = physical_key {
            let key = Key::ScanCode(scancode);
            let found = find_key(&states, key);
            update_entry(&mut states, found, key, pressed);
        }
        match logical_key {
            LogicalKey::Character(c) => {
                let key = Key::KeyCode { keycode: KeyCode::Char(c), location };
                let found = find_key(&states, key);
                update_entry(&mut states, found, key, pressed);
            },
            LogicalKey::Named(keycode) => {
                let key = Key::KeyCode { keycode, location };
                let found = find_key(&states, key);
                update_entry(&mut states, found, key, pressed);
                match modifier_bit_of(keycode, location) {
                    Some(b) => {
                        if pressed {
                            self.modifier_state = self.modifier_state | (1u8 << b);
                        } else {
                            self.modifier_state = self.modifier_state & !(1u8 << b);
                        }
                    },
                    None => {},
                }
            },
            _ => {},
        }
        self.key_state = states;
    }

    /// Starts a new frame: pressed keys become held, released keys
    /// unpressed.
    pub fn flush(&mut self)
        ensures
            forall|k: Key| #[trigger] final(self).state(k) == flushed(old(self).state(k)),
            final(self).modifiers() == old(self).modifiers(),
    {
        proof {
            use_type_invariant(&*self);
        }
        let flushed_entries = flush_entries(&self.key_state);
        self.key_state = flushed_entries;
    }
}

/// Makes the keyboard of a window.
pub fn create_keyboard() -> (k: Keyboard)
    ensures
        forall|key: Key| #[trigger] k.state(key) == ButtonState::Unpressed,
        k.modifiers() == 0,
{
    Keyboard::new()
}

/// The state of the mouse buttons within the frame.
pub struct MouseButtons {
    button_state: Vec<(MouseButton, ButtonState)>,
}

impl MouseButtons {
    #[verifier::type_invariant]
    closed spec fn inv(&self) -> bool {
        unique_keys(self.button_state@)
    }

    /// The state of `button` within the frame.
    pub closed spec fn state(&self, button: MouseButton) -> ButtonState {
        state_in(self.button_state@, button)
    }

    /// No button down.
    pub fn new() -> (m: Self)
        ensures
            forall|b: MouseButton| #[trigger] m.state(b) == ButtonState::Unpressed,
    {
        MouseButtons { button_state: Vec::new() }
    }

    fn lookup(&self, button: MouseButton) -> (s: ButtonState)
        ensures
            s == self.state(button),
    {
        proof {
            use_type_invariant(self);
        }
        match find_button(&self.button_state, button) {
            Some(i) => {
                proof {
                    lemma_state_at(self.button_state@, i as int);
                }
                self.button_state[i].1
            },
            None => ButtonState::Unpressed,
        }
    }

    /// Whether the button was pressed during this frame.
    pub fn button_pressed(&self, button: MouseButton) -> (b: bool)
        ensures
            b == (self.state(button) == ButtonState::Pressed),
    {
        self.lookup(button) == ButtonState::Pressed
    }

    /// Whether the button was pressed before this frame and is still down.
    pub fn button_held(&self, button: MouseButton) -> (b: bool)
        ensures
            b == (self.state(button) == ButtonState::Held),
    {
        self.lookup(button) == ButtonState::Held
    }

    /// Whether the button was released during this frame.
    pub fn button_released(&self, button: MouseButton) -> (b: bool)
        ensures
            b == (self.state(button) == ButtonState::Released),
    {
        self.lookup(button) == ButtonState::Released
    }

    /// Whether the mouse accepts a press (`pressed`) or a release of the
    /// button now.
    pub fn accepts(&self, button: MouseButton, pressed: bool) -> (b: bool)
        ensures
            b == mouse_transition_ok(self.state(button), pressed),
    {
        match self.lookup(button) {
            ButtonState::Unpressed => pressed,
            ButtonState::Pressed => pressed,
            ButtonState::Held => !pressed,
            ButtonState::Released => false,
        }
    }

    /// Records a press or a release of the button, which must move it on: a
    /// press of an unpressed or pressed button, a release of a held one.
    pub fn on_input(&mut self, button: MouseButton, pressed: bool)
        requires
            mouse_transition_ok(old(self).state(button), pressed),
        ensures
            forall|b: MouseButton|
                #[trigger] final(self).state(b) == if b == button {
                    transition(old(self).state(button), pressed)
                } else {
                    old(self).state(b)
                },
    {
        proof {
            use_type_invariant(&*self);
        }
        let mut states: Vec<(MouseButton, ButtonState)> = Vec::new();
        std::mem::swap(&mut states, &mut self.button_state);
        let found = find_button(&states, button);
        update_entry(&mut states, found, button, pressed);
        self.button_state = states;
    }

    /// Starts a new frame: pressed buttons become held, released buttons
    /// unpressed.
    pub fn flush(&mut self)
        ensures
            forall|b: MouseButton| #[trigger] final(self).state(b) == flushed(old(self).state(b)),
    {
        proof {
            use_type_invariant(&*self);
        }
        let flushed_entries = flush_entries(&self.button_state);
        self.button_state = flushed_entries;
    }
}


/// After a frame starts, no key or button is pressed or released: each is
/// held or unpressed, and starting another frame changes nothing.
pub proof fn lemma_flushed_settles(s: ButtonState)
    ensures
        flushed(s) == ButtonState::Held || flushed(s) == ButtonState::Unpressed,
        flushed(flushed(s)) == flushed(s),
{
}

/// A press and a release, each followed by a new frame, take an unpressed
/// key or button through pressed, held and released back to unpressed.
pub proof fn lemma_press_release_cycle()
    ensures
        transition(ButtonState::Unpressed, true) == ButtonState::Pressed,
        flushed(ButtonState::Pressed) == ButtonState::Held,
        transition(ButtonState::Held, false) == ButtonState::Released,
        flushed(ButtonState::Released) == ButtonState::Unpressed,
{
}

/// Pressing a modifier key makes its own query true (Alt for `alt_key`,
/// Control for `control_key`, Shift for `shift_key`, Super for
/// `super_key`); releasing it clears its bit, so that pressing and releasing
/// it leaves the modifier state as it was where its bit was clear.
pub proof fn lemma_modifier_press_release(m: u8, keycode: KeyCode, location: KeyLocation)
    requires
        modifier_bit(keycode, location) is Some,
    ensures
        ({
            let pressed = modifiers_after(m, keycode, location, true);
            let mask = match keycode {
                KeyCode::Alt => Keyboard::ALT_MASK,
                KeyCode::Control => Keyboard::CTRL_MASK,
                KeyCode::Shift => Keyboard::SHIFT_MASK,
                _ => Keyboard::SUPER_MASK,
            };
            &&& pressed & mask != 0
            &&& m & (1u8 << modifier_bit(keycode, location)->Some_0) == 0 ==> modifiers_after(
                pressed,
                keycode,
                location,
                false,
            ) == m
        }),
{
    let b = modifier_bit(keycode, location)->Some_0;
    assert(b < 8);
    assert(forall|x: u8, c: u8| c < 8 ==> #[trigger] ((x | (1u8 << c)) & !(1u8 << c)) == x & !(1u8 << c)) by (bit_vector);
    assert(forall|x: u8, c: u8| c < 8 && x & (1u8 << c) == 0 ==> #[trigger] (x & !(1u8 << c)) == x) by (bit_vector);
    assert(forall|x: u8| #[trigger] ((x | (1u8 << 0u8)) & 11u8) != 0) by (bit_vector);
    assert(forall|x: u8| #[trigger] ((x | (1u8 << 1u8)) & 11u8) != 0) by (bit_vector);
    assert(forall|x: u8| #[trigger] ((x | (1u8 << 2u8)) & 44u8) != 0) by (bit_vector);
    assert(forall|x: u8| #[trigger] ((x | (1u8 << 3u8)) & 44u8) != 0) by (bit_vector);
    assert(forall|x: u8| #[trigger] ((x | (1u8 << 4u8)) & 176u8) != 0) by (bit_vector);
    assert(forall|x: u8| #[trigger] ((x | (1u8 << 5u8)) & 176u8) != 0) by (bit_vector);
    assert(forall|x: u8| #[trigger] ((x | (1u8 << 6u8)) & 192u8) != 0) by (bit_vector);
    assert(forall|x: u8| #[trigger] ((x | (1u8 << 7u8)) & 192u8) != 0) by (bit_vector);
}

} // verus!
