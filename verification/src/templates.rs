//! The text the group macro writes around what it computes: the state
//! of each event, the module each event becomes, the group's own
//! module, and its state dump. Each template is cut where a value goes
//! in; the pieces are numbered in the order they are written.
use vstd::prelude::*;

verus! {

pub const STATE_0: &'static str = "\n            #[used]\n            #[cfg_attr(any(target_os = \"linux\", target_os = \"android\"), link_section = \"side_event_state\")]\n            pub static mut STATE_";
pub const STATE_1: &'static str = ": ::libside::side::SideEventState0 = ::libside::side::SideEventState0 {\n                parent: ::libside::side::SideEventState {\n                    version: ::libside::side::SIDE_EVENT_STATE_ABI_VERSION,\n                },\n                nr_callbacks: 0,\n                enabled: ::core::sync::atomic::AtomicUsize::new(0),\n                callbacks: ::core::ptr::addr_of!(::libside::side::side_empty_callback).cast(),\n                desc: unsafe {\n                    ::core::ptr::addr_of_mut!(DESC)\n                        .cast::<u8>()\n                        .add(::libside::side::event_offset(";
pub const STATE_2: &'static str = "))\n                        .cast::<::libside::side::SideEventDescription>()\n                },\n            };\n";
pub const CALL_0: &'static str = "\n        /// The two halves of this event, which `side_event!()` reaches\n        /// by the path it is given: whether anything is listening, and\n        /// the emission itself.\n        ///\n        /// They are apart so that asking can come first, which is what\n        /// lets a call site skip working out arguments nothing would\n        /// read. Emit it with\n        ///\n        /// ```ignore\n        /// side_event!(path::to::";
pub const CALL_1: &'static str = ", ...);\n        /// ```\n        ///\n        /// or, where the answer is wanted for something else, ask with\n        /// `enabled()` and emit with `emit()`.\n        #[allow(non_snake_case)]\n        pub mod ";
pub const CALL_2: &'static str = " {\n            use super::*;\n\n            /// Whether a tracer is listening for this event.\n            #[inline(always)]\n            pub fn enabled() -> bool {\n                /*\n                 * Relaxed, which is what side_event_enabled() reads it\n                 * with: nothing is ordered against it, and the only\n                 * thing asked of the compiler is that it read it here\n                 * rather than remember what it held.\n                 */\n                let enabled = unsafe {\n                    &(*::core::ptr::addr_of_mut!(__side::STATE_";
pub const CALL_3: &'static str = ")).enabled\n                };\n                enabled.load(::core::sync::atomic::Ordering::Relaxed) != 0\n            }\n\n            /// Emit it, without asking again.\n            ///\n            /// Inlined, into the unlikely half of the branch\n            /// `side_event!()` writes around it.\n            #[inline(always)]\n            pub fn emit(";
pub const CALL_4: &'static str = ") {\n                let state = unsafe {\n                    ::core::ptr::addr_of!(\n                        (*::core::ptr::addr_of_mut!(__side::STATE_";
pub const CALL_5: &'static str = ")).parent)\n                };\n                ";
pub const CALL_6: &'static str = "\n            }\n\n            /// Emit it to the one tracer which asked for the state dump\n            /// `key` identifies, rather than to every tracer listening.\n            ///\n            /// For a state dump callback, which `side_statedump_event!()`\n            /// reaches this through. Emitting it outside one is what the\n            /// key makes impossible: there is nowhere else to get one.\n            #[inline(always)]\n            pub fn emit_statedump(\n                key: ::libside::side::StatedumpKey<'_>,\n                ";
pub const CALL_7: &'static str = "\n            ) {\n                let state = unsafe {\n                    ::core::ptr::addr_of!(\n                        (*::core::ptr::addr_of_mut!(__side::STATE_";
pub const CALL_8: &'static str = ")).parent)\n                };\n                ";
pub const CALL_9: &'static str = "\n            }\n        }\n";
pub const BODY_0: &'static str = "\n        #[doc(hidden)]\n        #[allow(non_snake_case, non_upper_case_globals)]\n        pub mod __side {\n            use super::*;\n\n            ";
pub const BODY_1: &'static str = "\n\n            pub const SPECS: &[::libside::side::EventSpec] = &[";
pub const BODY_2: &'static str = "];\n            pub const SIZE: usize = ::libside::side::group_size(SPECS);\n\n            /* One hole per reference to a structure described elsewhere. */\n            pub const NR_PATCHES: usize = ";
pub const BODY_3: &'static str = ";\n\n            const BUILT: ::libside::side::Built<SIZE, NR_PATCHES> =\n                ::libside::side::build_group::<SIZE, NR_PATCHES>(SPECS);\n\n            ";
pub const BODY_4: &'static str = "\n\n            /*\n             * Every description of the group in one object, sharing one\n             * copy of each type they describe the same way.\n             *\n             * The bytes the const evaluator laid out, cut at every\n             * address it could not write, with a pointer in its place:\n             * written as a pointer it is a relocation, which the loader\n             * fills in and which a reader of the file can follow.\n             * Packed, so that nothing is inserted between the two.\n             */\n            #[repr(C, packed)]\n            pub struct GroupDesc {\n                ";
pub const BODY_5: &'static str = "\n            }\n\n            const _: () = assert!(\n                ::core::mem::size_of::<GroupDesc>() == SIZE,\n                \"side: the description object is not the size of the description\"\n            );\n\n            #[used]\n            #[cfg_attr(any(target_os = \"linux\", target_os = \"android\"), link_section = \"side_event_description\")]\n            pub static mut DESC: GroupDesc = GroupDesc {\n                ";
pub const BODY_6: &'static str = "\n            };\n\n            ";
pub const BODY_7: &'static str = "\n\n            #[used]\n            #[cfg_attr(any(target_os = \"linux\", target_os = \"android\"), link_section = \"side_event_state_ptr\")]\n            static mut STATE_PTRS: [*mut ::libside::side::SideEventState; ";
pub const BODY_8: &'static str = "] = [";
pub const BODY_9: &'static str = "];\n\n            static mut HANDLE: *mut ::libside::side::SideEventsRegisterHandle =\n                ::core::ptr::null_mut();\n\n            ";
pub const BODY_10: &'static str = "\n\n            unsafe extern \"C\" fn register() {\n                unsafe {\n                    HANDLE = ::libside::side::side_events_register(\n                        ::core::ptr::addr_of_mut!(STATE_PTRS).cast(), ";
pub const BODY_11: &'static str = ");\n                    ";
pub const BODY_12: &'static str = "\n                }\n            }\n\n            unsafe extern \"C\" fn unregister() {\n                unsafe {\n                    ";
pub const BODY_13: &'static str = "\n                    ::libside::side::side_events_unregister(HANDLE);\n                }\n            }\n\n            #[used]\n            #[cfg_attr(any(target_os = \"linux\", target_os = \"android\"), link_section = \".init_array\")]\n            static REGISTER: unsafe extern \"C\" fn() = register;\n\n            #[used]\n            #[cfg_attr(any(target_os = \"linux\", target_os = \"android\"), link_section = \".fini_array\")]\n            static UNREGISTER: unsafe extern \"C\" fn() = unregister;\n        }\n\n        ";
pub const BODY_14: &'static str = "\n\n        ";
pub const BODY_15: &'static str = "\n";
pub const SD_ITEMS_0: &'static str = "\n            /*\n             * The callback, given a type here rather than left to be\n             * checked where libside calls it: a signature which is\n             * wrong is then a mismatch which names the function and\n             * says what was wanted of it.\n             */\n            const _: fn(::libside::side::StatedumpKey<'_>) = ";
pub const SD_ITEMS_1: &'static str = ";\n\n            pub static mut STATEDUMP_HANDLE:\n                *mut ::libside::side::SideStatedumpRequestHandle =\n                    ::core::ptr::null_mut();\n\n            /*\n             * libside hands a state dump callback a key and nothing of\n             * the caller's, so the callback cannot be a closure. It\n             * needs to capture nothing: which group this is, is known\n             * here.\n             */\n            unsafe extern \"C\" fn statedump_callback(key: *mut ::core::ffi::c_void) {\n                /*\n                 * The key is good until this returns and no longer,\n                 * which is what the branded key says: it borrows from\n                 * this call, so the callback cannot keep it.\n                 */\n                ";
pub const SD_ITEMS_2: &'static str = "(unsafe { ::libside::side::StatedumpKey::from_raw(key) });\n            }\n";
pub const SD_REG_0: &'static str = "\n                    STATEDUMP_HANDLE =\n                        ::libside::side::side_statedump_request_notification_register(\n                            b\"";
pub const SD_REG_1: &'static str = "\".as_ptr().cast(),\n                            statedump_callback,\n                            ::libside::side::StatedumpMode::";
pub const SD_REG_2: &'static str = ");\n";
pub const SD_UNREG_0: &'static str = "\n                    if !STATEDUMP_HANDLE.is_null() {\n                        ::libside::side::side_statedump_request_notification_unregister(\n                            STATEDUMP_HANDLE);\n                        STATEDUMP_HANDLE = ::core::ptr::null_mut();\n                    }\n";
pub const SD_POLL_0: &'static str = "\n        /// Whether a tracer has asked this group for a state dump.\n        ///\n        /// The group was declared `mode = polling', so the application\n        /// is what runs its callback, and this is how it knows to.\n        pub fn statedump_pending() -> bool {\n            unsafe {\n                /*\n                 * Nothing was asked of a group which never registered\n                 * -- libside was finalized, or out of memory -- and\n                 * asking libside about a handle it did not give us\n                 * would be reading through a null pointer.\n                 */\n                if __side::STATEDUMP_HANDLE.is_null() {\n                    return false;\n                }\n                ::libside::side::side_statedump_poll_pending_requests(\n                    __side::STATEDUMP_HANDLE)\n            }\n        }\n\n        /// Run the group's state dump callback for every tracer which\n        /// has asked, on this thread, now.\n        ///\n        /// The obligation `mode = polling' takes on: a tracer which\n        /// asks waits until this is reached.\n        pub fn run_pending_statedumps() {\n            unsafe {\n                if __side::STATEDUMP_HANDLE.is_null() {\n                    return;\n                }\n                /*\n                 * The only thing this reports is a handle of the wrong\n                 * mode, which the handle above cannot be: it is written\n                 * for a polling group and no other.\n                 */\n                ::libside::side::side_statedump_run_pending_requests(\n                    __side::STATEDUMP_HANDLE);\n            }\n        }\n";

pub const GATHER_0: &'static str = "#[doc(hidden)] mod ";
pub const GATHER_1: &'static str = " {\n            use super::*;\n            #[allow(dead_code)] fn assert_field_types(value: &";
pub const GATHER_2: &'static str = ") { ";
pub const GATHER_3: &'static str = " }\n            ";
pub const GATHER_4: &'static str = "\n            impl ::libside::side::GatherType for ";
pub const GATHER_5: &'static str = " {\n                const FIELDS: &'static [::libside::side::Field] = &[";
pub const GATHER_6: &'static str = "];\n                const SIZE: u32 = ::core::mem::size_of::<";
pub const GATHER_7: &'static str = ">() as u32;\n            }\n            impl<'a> ::libside::side::FieldType for &'a ";
pub const GATHER_8: &'static str = " {\n                const LAYOUT: ::libside::side::Layout = ::libside::side::Layout::GatherStruct {\n                    offset: 0,\n                    size: <";
pub const GATHER_9: &'static str = " as ::libside::side::GatherType>::SIZE,\n                    access: ::libside::side::SIDE_TYPE_GATHER_ACCESS_DIRECT,\n                    fields: <";
pub const GATHER_10: &'static str = " as ::libside::side::GatherType>::FIELDS,\n                };\n                fn into_prepared_arg(self) -> ::libside::side::PreparedSideArg {\n                    ";
pub const GATHER_11: &'static str = "\n                }\n                ";
pub const GATHER_12: &'static str = "\n            }\n        }";

} // verus!
