use ssh_autoport::maps::SortedMap;
use ssh_autoport::state::{Assignment, Saved, SavedHost, State};

#[test]
fn entries_are_made_on_demand_and_kept() {
    let mut st = State::default();
    assert!(st.get("u@h:22", 9000).is_none());
    st.entry("u@h:22", 9000).muted = true;
    st.entry("u@h:22", 9000).comment = Some("gpu training".into());
    let a = st.get("u@h:22", 9000).unwrap();
    assert!(a.muted);
    assert_eq!(a.comment.as_deref(), Some("gpu training"));
    assert_eq!(a.local_port, None);
    assert!(st.get("u@h:22", 9001).is_none());
    assert!(st.get("u@h:23", 9000).is_none());
}

#[test]
fn pausing_is_per_host() {
    let mut st = State::default();
    st.set_paused("u@h:22", true);
    assert!(st.paused("u@h:22"));
    assert!(!st.paused("u@g:22"));
    st.set_paused("u@h:22", false);
    assert!(!st.paused("u@h:22"));
}

#[test]
fn roundtrips_mute_comment_pause() {
    let mut st = State::default();
    st.entry("u@h:22", 9000).muted = true;
    st.entry("u@h:22", 9000).comment = Some("gpu training".into());
    st.set_paused("u@h:22", true);
    let st2 = State::from_saved(&st.to_saved());
    let a = st2.get("u@h:22", 9000).unwrap();
    assert!(a.muted);
    assert_eq!(a.comment.as_deref(), Some("gpu training"));
    assert_eq!(a.local_port, None); // never forwarded, entry still valid
    assert!(st2.paused("u@h:22"));
}

#[test]
fn pausing_leaves_the_rest_of_the_memory() {
    let mut st = State::default();
    st.entry("u@h:22", 9000).muted = true;
    st.set_paused("u@g:22", true);
    st.set_paused("u@h:22", true);
    st.set_paused("u@h:22", false);
    assert!(st.paused("u@g:22"));
    assert!(!st.paused("u@h:22"));
    assert!(st.get("u@h:22", 9000).unwrap().muted);
}

#[test]
fn the_memory_is_written_in_order() {
    let mut st = State::default();
    st.entry("u@h:22", 9000).local_port = Some(9001);
    st.entry("u@h:22", 80).local_port = Some(8080);
    st.entry("u@g:22", 1).pinned = true;
    st.set_paused("z", true);
    st.set_paused("a", true);
    let entry = |lport: Option<u16>, pinned: bool| Assignment {
        local_port: lport,
        pinned,
        ..Assignment::default()
    };
    assert_eq!(
        st.to_saved(),
        Saved {
            assignments: vec![
                SavedHost { host: "u@g:22".into(), ports: vec![(1, entry(None, true))] },
                SavedHost {
                    host: "u@h:22".into(),
                    ports: vec![(80, entry(Some(8080), false)), (9000, entry(Some(9001), false))],
                },
            ],
            paused_hosts: vec!["a".into(), "z".into()],
        }
    );
}

#[test]
fn path_follows_the_variables() {
    let s = |t: &str| Some(t.to_string());
    assert_eq!(State::path(s("/x/y.json"), s("/c"), s("/h")), "/x/y.json");
    assert_eq!(State::path(None, s("/c"), s("/h")), "/c/ssh-autoport/state.json");
    assert_eq!(State::path(None, None, s("/h/")), "/h/.config/ssh-autoport/state.json");
    assert_eq!(State::path(None, None, None), "./.config/ssh-autoport/state.json");
    assert_eq!(State::path(None, s(""), None), "ssh-autoport/state.json");
}

#[test]
fn blank_entry_says_nothing() {
    let a = Assignment::default();
    assert_eq!(
        a,
        Assignment {
            local_port: None,
            process: None,
            pinned: false,
            muted: false,
            comment: None,
            tier: None,
            updated_at: 0,
        }
    );
}

#[test]
fn maps_are_ordered() {
    let mut m: SortedMap<u16, u16> = SortedMap::new();
    m.insert(3, 30);
    m.insert(1, 10);
    m.insert(2, 20);
    m.insert(3, 31);
    assert_eq!(m.keys(), vec![1, 2, 3]);
    assert_eq!(m.get(&3), Some(&31));
    assert_eq!(m.remove(&1), Some(10));
    assert_eq!(m.remove(&1), None);
    assert_eq!(m.len(), 2);
    assert_eq!(*m.key_at(0), 2);
    assert_eq!(*m.value_at(0), 20);
    *m.get_mut(&2).unwrap() = 21;
    *m.or_insert(4, 40) += 1;
    assert_eq!(m.get(&2), Some(&21));
    assert_eq!(m.get(&4), Some(&41));
    assert!(m.contains_key(&3));
}
