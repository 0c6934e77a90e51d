use vstd::prelude::*;

verus! {

/// General settings of a run.
#[derive(Clone, Debug)]
pub struct GeneralConfig {
    pub num_cores: u32,
    pub log_level: String,
    pub video_mode: String,
}

/// Where the dataset is read and the export written.
#[derive(Clone, Debug)]
pub struct DataConfig {
    pub data_path: String,
    pub subsets: Vec<String>,
    pub output_path: String,
    pub huggingface_dataset_url: String,
}

impl GeneralConfig {
    /// Videos processed at once: one in display mode, where frames are shown
    /// as they are processed, else one per configured core.
    pub fn worker_count(&self) -> (r: usize)
        ensures
            r == if self.video_mode@ == "display"@ {
                1
            } else {
                self.num_cores as usize
            },
    {
        let display = "display".to_owned();
        if self.video_mode == display {
            1
        } else {
            self.num_cores as usize
        }
    }
}

} // verus!
