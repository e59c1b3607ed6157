//! Who sets the shared state up, and who joins it.
use crate::shared_state::{
    configured_entries, is_mock_config, mock_configs, DeviceConfig, DevicesState,
    SharedDeviceState,
};
use crate::text::push_text;
use vstd::prelude::*;

verus! {

/// The name of the shared segment within its directory.
pub const SHM_PATH_SUFFIX: &'static str = "shm";

/// What came of asking for a new shared segment.
pub enum CreateOutcome {
    /// The segment is new.
    Created,
    /// A link to the segment exists already.
    LinkExists,
    /// The segment exists already.
    MappingIdExists,
    /// The segment could not be made, for the given reason.
    Failed(String),
}

/// What follows from it.
pub enum CreateAction {
    /// Write fresh state into the segment.
    Initialise,
    /// Open the existing segment and leave its state as it is.
    Join,
    /// Give up with a message.
    Fail(String),
}

/// Another process was first.
pub open spec fn exists_already(outcome: CreateOutcome) -> bool {
    outcome is LinkExists || outcome is MappingIdExists
}

/// Decides what follows from asking for a new segment: only the one who made it sets
/// it up, so that counters of other processes are never lost.
pub fn create_action(outcome: &CreateOutcome) -> (action: CreateAction)
    ensures
        action is Initialise <==> outcome is Created,
        action is Join <==> exists_already(*outcome),
        action matches CreateAction::Fail(message) ==> outcome is Failed && message@
            == "Failed to create shared memory: "@ + outcome->Failed_0@,
{
    match outcome {
        CreateOutcome::Created => CreateAction::Initialise,
        CreateOutcome::LinkExists => CreateAction::Join,
        CreateOutcome::MappingIdExists => CreateAction::Join,
        CreateOutcome::Failed(reason) => {
            let mut message = String::new();
            push_text(&mut message, "Failed to create shared memory: ");
            push_text(&mut message, reason.as_str());
            assert(message@ =~= "Failed to create shared memory: "@ + reason@);
            CreateAction::Fail(message)
        },
    }
}

/// A process's hold on the shared state.
pub struct SharedMemoryHandle {
    state: SharedDeviceState,
}

impl View for SharedMemoryHandle {
    type V = DevicesState;

    closed spec fn view(&self) -> DevicesState {
        self.state@
    }
}

impl SharedMemoryHandle {
    /// Joins the state found in an existing segment, and where there is none sets up
    /// state with stand-in limits for the given devices.
    pub fn mock(
        existing: Option<SharedDeviceState>,
        gpu_idx_uuids: &[(usize, String)],
    ) -> (handle: Self)
        ensures
            match existing {
                Some(state) => handle@ == state@,
                None => exists|configs: Seq<DeviceConfig>|
                    {
                        &&& configs.len() == gpu_idx_uuids@.len()
                        &&& forall|i: int|
                            0 <= i < configs.len() ==> is_mock_config(
                                (gpu_idx_uuids@[i].0, gpu_idx_uuids@[i].1@),
                                #[trigger] configs[i],
                            )
                        &&& handle@ == (DevicesState {
                            devices: #[trigger] configured_entries(configs, configs.len()),
                            last_heartbeat: 0,
                        })
                    },
            },
    {
        match existing {
            Some(state) => SharedMemoryHandle { state },
            None => {
                let configs = mock_configs(gpu_idx_uuids);
                SharedMemoryHandle { state: SharedDeviceState::new(configs.as_slice()) }
            },
        }
    }

    /// Joins the state found in an existing segment at a path. Where it cannot be
    /// opened, fails with a message that names the path.
    pub fn open(found: Result<SharedDeviceState, String>, path: &str) -> (r: Result<Self, String>)
        ensures
            match found {
                Ok(state) => r is Ok && r->Ok_0@ == state@,
                Err(_) => r is Err && r->Err_0@ == "Failed to open shared memory: "@ + path@,
            },
    {
        match found {
            Ok(state) => Ok(SharedMemoryHandle { state }),
            Err(_) => {
                let mut message = String::new();
                push_text(&mut message, "Failed to open shared memory: ");
                push_text(&mut message, path);
                assert(message@ =~= "Failed to open shared memory: "@ + path@);
                Err(message)
            },
        }
    }

    /// Sets up fresh state in a new segment, or joins the state found in an existing
    /// one without touching it.
    pub fn create(
        outcome: CreateOutcome,
        found: Result<SharedDeviceState, String>,
        configs: &[DeviceConfig],
    ) -> (r: Result<Self, String>)
        ensures
            match outcome {
                CreateOutcome::Created => r is Ok && r->Ok_0@ == (DevicesState {
                    devices: configured_entries(configs@, configs@.len()),
                    last_heartbeat: 0,
                }),
                CreateOutcome::Failed(reason) => r is Err && r->Err_0@
                    == "Failed to create shared memory: "@ + reason@,
                _ => match found {
                    Ok(state) => r is Ok && r->Ok_0@ == state@,
                    Err(_) => r is Err && r->Err_0@ == "Failed to open existing shared memory"@,
                },
            },
    {
        match create_action(&outcome) {
            CreateAction::Initialise => Ok(
                SharedMemoryHandle { state: SharedDeviceState::new(configs) },
            ),
            CreateAction::Join => match found {
                Ok(state) => Ok(SharedMemoryHandle { state }),
                Err(_) => {
                    let mut message = String::new();
                    push_text(&mut message, "Failed to open existing shared memory");
                    assert(message@ =~= "Failed to open existing shared memory"@);
                    Err(message)
                },
            },
            CreateAction::Fail(message) => Err(message),
        }
    }

    /// The shared state.
    pub fn get_state(&self) -> (state: &SharedDeviceState)
        ensures
            state@ == self@,
    {
        &self.state
    }

    /// The shared state, to be changed.
    pub fn get_state_mut(&mut self) -> (state: &mut SharedDeviceState)
        ensures
            state@ == old(self)@,
            final(self)@ == final(state)@,
    {
        &mut self.state
    }
}

} // verus!
