//! The values that a roster is made of.

pub mod klasse;
pub mod projekt_id;
pub mod save_file;
pub mod schueler_file;
pub mod schueler_liste_file;
pub mod schueler_id;

pub use klasse::Klasse;
pub use projekt_id::ProjektId;
pub use save_file::SaveFileKlasse;
pub use save_file::SaveFileProjekt;
pub use save_file::SaveFileSchueler;
pub use save_file::SaveFileStufe;
pub use save_file::SaveFileZuordnung;
pub use schueler_id::SchuelerId;
