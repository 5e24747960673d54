//! Owned resources and their command/response vocabularies.
//!
//! An owned resource lives for the process lifetime on its owning thread and
//! is never referenced directly by another thread: all interaction is a
//! command value sent through a Remote Channel.  Two resources are modelled
//! here, the windowing-subsystem manager and the graphics-device manager;
//! each has a closed command vocabulary, versioned by enum tag, and a fixed,
//! documented choice per command of whether a response is produced.

use vstd::prelude::*;

verus! {

/// A resource driven through a Remote Channel.  Applying a command mutates
/// the resource and may produce one response; both are pinned by the two
/// spec functions, so the channel can state exactly how a drained batch is
/// processed.
///
/// The handler is supplied by whoever owns the resource: any type that says
/// what its commands do can sit behind a `Responder`.
pub trait OwnedResource<C, R>: Sized {
    /// The resource state after applying `c`.
    spec fn next_state(self, c: C) -> Self;

    /// The response produced by applying `c`: fixed per command type, `None`
    /// for fire-and-forget commands.
    spec fn response_for(self, c: C) -> Option<R>;

    /// Apply one command, on the owning thread.
    fn apply(&mut self, c: C) -> (r: Option<R>)
        ensures
            *final(self) == old(self).next_state(c),
            r == old(self).response_for(c),
    ;
}

/// Commands understood by the windowing-subsystem manager.
#[derive(Clone, Debug, PartialEq, Eq)]
pub enum WindowCommand {
    /// Replace the window title.  Fire-and-forget: no response.
    SetTitle(String),
    /// Resize the surface.  Acknowledged with the new dimensions.
    Resize { width: u32, height: u32 },
    /// Show or hide the window.  Fire-and-forget: no response.
    SetVisible(bool),
}

/// Responses produced by the windowing-subsystem manager.
#[derive(Clone, Copy, Debug, PartialEq, Eq, Structural)]
pub enum WindowResponse {
    /// A `Resize` was applied; these are the dimensions now in force.
    Resized { width: u32, height: u32 },
}

/// The state the simulation needs of the window subsystem, owned by the
/// OS-event thread.  The toolkit object itself stays with that thread; this
/// is the model the commands act on.
#[derive(Clone, Debug, PartialEq, Eq)]
pub struct WindowManager {
    pub title: String,
    pub width: u32,
    pub height: u32,
    pub visible: bool,
}

impl WindowManager {
    /// A window manager for a surface of the given dimensions, untitled and
    /// hidden until commanded otherwise.
    pub fn new(width: u32, height: u32) -> (m: WindowManager)
        ensures
            m.width == width,
            m.height == height,
            m.title@.len() == 0,
            m.visible == false,
    {
        WindowManager { title: String::new(), width, height, visible: false }
    }
}

impl OwnedResource<WindowCommand, WindowResponse> for WindowManager {
    open spec fn next_state(self, c: WindowCommand) -> WindowManager {
        match c {
            WindowCommand::SetTitle(t) => WindowManager {
                title: t,
                width: self.width,
                height: self.height,
                visible: self.visible,
            },
            WindowCommand::Resize { width, height } => WindowManager {
                title: self.title,
                width,
                height,
                visible: self.visible,
            },
            WindowCommand::SetVisible(v) => WindowManager {
                title: self.title,
                width: self.width,
                height: self.height,
                visible: v,
            },
        }
    }

    open spec fn response_for(self, c: WindowCommand) -> Option<WindowResponse> {
        match c {
            WindowCommand::Resize { width, height } => Option::Some(
                WindowResponse::Resized { width, height },
            ),
            _ => Option::None,
        }
    }

    fn apply(&mut self, c: WindowCommand) -> (r: Option<WindowResponse>) {
        match c {
            WindowCommand::SetTitle(t) => {
                self.title = t;
                Option::None
            },
            WindowCommand::Resize { width, height } => {
                self.width = width;
                self.height = height;
                Option::Some(WindowResponse::Resized { width, height })
            },
            WindowCommand::SetVisible(v) => {
                self.visible = v;
                Option::None
            },
        }
    }
}

/// Commands understood by the graphics-device manager.
#[derive(Clone, Copy, Debug, PartialEq, Eq, Structural)]
pub enum DeviceCommand {
    /// Create a buffer of `size` bytes.  Acknowledged with the new handle.
    CreateBuffer { size: u64 },
    /// Submit the queued command buffer.  Acknowledged with the submission
    /// index.
    SubmitCommandBuffer,
}

/// Responses produced by the graphics-device manager.
#[derive(Clone, Copy, Debug, PartialEq, Eq, Structural)]
pub enum DeviceResponse {
    /// A buffer was created under this handle.
    BufferCreated { buffer: u64 },
    /// The submission completed under this index.
    Submitted { index: u64 },
}

/// The state the simulation needs of the graphics device, owned by the
/// thread that submits command buffers.  Handles count up and wrap only
/// after 2^64 allocations.
#[derive(Clone, Copy, Debug, PartialEq, Eq, Structural)]
pub struct DeviceManager {
    pub next_buffer: u64,
    pub buffers_created: u64,
    pub bytes_allocated: u64,
    pub submissions: u64,
}

impl DeviceManager {
    /// A device manager with no buffers and no submissions.
    pub fn new() -> (m: DeviceManager)
        ensures
            m == (DeviceManager {
                next_buffer: 0,
                buffers_created: 0,
                bytes_allocated: 0,
                submissions: 0,
            }),
    {
        DeviceManager { next_buffer: 0, buffers_created: 0, bytes_allocated: 0, submissions: 0 }
    }
}

impl OwnedResource<DeviceCommand, DeviceResponse> for DeviceManager {
    open spec fn next_state(self, c: DeviceCommand) -> DeviceManager {
        match c {
            DeviceCommand::CreateBuffer { size } => DeviceManager {
                next_buffer: vstd::wrapping::u64_specs::wrapping_add(self.next_buffer, 1),
                buffers_created: vstd::wrapping::u64_specs::wrapping_add(self.buffers_created, 1),
                bytes_allocated: if self.bytes_allocated + size > u64::MAX {
                    u64::MAX
                } else {
                    (self.bytes_allocated + size) as u64
                },
                submissions: self.submissions,
            },
            DeviceCommand::SubmitCommandBuffer => DeviceManager {
                next_buffer: self.next_buffer,
                buffers_created: self.buffers_created,
                bytes_allocated: self.bytes_allocated,
                submissions: vstd::wrapping::u64_specs::wrapping_add(self.submissions, 1),
            },
        }
    }

    open spec fn response_for(self, c: DeviceCommand) -> Option<DeviceResponse> {
        match c {
            DeviceCommand::CreateBuffer { .. } => Option::Some(
                DeviceResponse::BufferCreated { buffer: self.next_buffer },
            ),
            DeviceCommand::SubmitCommandBuffer => Option::Some(
                DeviceResponse::Submitted { index: self.submissions },
            ),
        }
    }

    fn apply(&mut self, c: DeviceCommand) -> (r: Option<DeviceResponse>) {
        match c {
            DeviceCommand::CreateBuffer { size } => {
                let handle = self.next_buffer;
                self.next_buffer = self.next_buffer.wrapping_add(1);
                self.buffers_created = self.buffers_created.wrapping_add(1);
                self.bytes_allocated = self.bytes_allocated.saturating_add(size);
                Option::Some(DeviceResponse::BufferCreated { buffer: handle })
            },
            DeviceCommand::SubmitCommandBuffer => {
                let index = self.submissions;
                self.submissions = self.submissions.wrapping_add(1);
                Option::Some(DeviceResponse::Submitted { index })
            },
        }
    }
}

} // verus!
